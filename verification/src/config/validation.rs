//! Validation of the targets of a project: their names are identifiers, their
//! dependencies exist, and no target depends on itself.

use super::conversion::{NameGraph, first_index, lemma_first_index_spec, lemma_first_index_stays};
use super::projects::{ProjectTarget, ProjectTargetView};
use super::single_file::{lemma_chain_stops_at_first_repeat, lemma_stops_at_first_repeat_prepend, lemma_unvisited_shrinks,
    lemma_walk_prepend, lemma_walk_tail, stops_at_first_repeat, unvisited};
use super::yaml::is_valid_target_name;
use crate::domain::copy_strings;
use crate::text::{is_ident, join_seq, join_strings, lemma_push_deep_view, owned, str_eq};
use vstd::prelude::*;

verus! {

/// The names and dependencies of `targets`.
pub open spec fn project_graph(targets: Seq<(Seq<char>, ProjectTargetView)>) -> NameGraph {
    NameGraph {
        names: targets.map_values(|e: (Seq<char>, ProjectTargetView)| e.0),
        deps: targets.map_values(|e: (Seq<char>, ProjectTargetView)| e.1.dependencies),
    }
}

/// Why a target is not valid.
#[derive(Debug, Clone, PartialEq, Eq)]
pub enum TargetError {
    /// A dependency of `target` does not exist.
    MissingDependency { target: String, dependency: String },
    /// A target depends on itself, through the chain of dependencies `chain`.
    CircularDependency { chain: Vec<String> },
}

impl TargetError {
    pub fn message(&self) -> (r: String)
        ensures
            match self {
                TargetError::MissingDependency { target, dependency } =>
                    r@ == target@ + " - Dependency "@ + dependency@ + " not found"@,
                TargetError::CircularDependency { chain } => r@ == "Circular dependency: "@ + join_seq(chain.deep_view(), " -> "@),
            },
    {
        match self {
            TargetError::MissingDependency { target, dependency } => {
                let mut r = owned(target.as_str());
                r.append(" - Dependency ");
                r.append(dependency.as_str());
                r.append(" not found");
                proof {
                    reveal_strlit(" - Dependency ");
                    reveal_strlit(" not found");
                }
                r
            },
            TargetError::CircularDependency { chain } => {
                let mut r = owned("Circular dependency: ");
                r.append(join_strings(chain, " -> ").as_str());
                proof {
                    reveal_strlit("Circular dependency: ");
                }
                r
            },
        }
    }
}

/// What an error of the validation of `name`, below `parents`, reports truly holds.
pub open spec fn target_error_is_justified(g: NameGraph, parents: Seq<Seq<char>>, name: Seq<char>, e: TargetError) -> bool {
    match e {
        TargetError::MissingDependency { target, dependency } => exists|w: Seq<Seq<char>>| #[trigger] g.is_walk(w)
            && w[0] == name && w.last() == target@ && g.index(target@) is Some
            && g.deps_of(target@).unwrap().contains(dependency@) && g.index(dependency@) is None,
        TargetError::CircularDependency { chain } => exists|w: Seq<Seq<char>>| #[trigger] g.is_walk(w) && w[0] == name
            && chain.deep_view() == parents + w && (parents + w).drop_last().contains(w.last())
            && stops_at_first_repeat(parents, w),
    }
}

proof fn lemma_justified_target_error_is_invalid(g: NameGraph, parents: Seq<Seq<char>>, name: Seq<char>, e: TargetError)
    requires
        target_error_is_justified(g, parents, name, e),
    ensures
        !g.valid_from(parents, name),
{
    match e {
        TargetError::MissingDependency { target, dependency } => {
            let w = choose|w: Seq<Seq<char>>| #[trigger] g.is_walk(w)
                && w[0] == name && w.last() == target@ && g.index(target@) is Some
                && g.deps_of(target@).unwrap().contains(dependency@) && g.index(dependency@) is None;
            let w2 = w.push(dependency@);
            assert forall|i: int| 0 <= i < w2.len() - 1 implies #[trigger] g.step(w2[i], w2[i + 1]) by {
                if i < w.len() - 1 {
                    assert(w2[i] == w[i] && w2[i + 1] == w[i + 1]);
                    assert(g.step(w[i], w[i + 1]));
                } else {
                    assert(w2[i] == target@);
                }
            }
            if g.valid_from(parents, name) {
                assert(g.is_walk(w2) && w2[0] == name);
                assert(g.index(w2[w2.len() - 1]) is Some);
            }
        },
        TargetError::CircularDependency { chain } => {
            let w = choose|w: Seq<Seq<char>>| #[trigger] g.is_walk(w) && w[0] == name
                && chain.deep_view() == parents + w && (parents + w).drop_last().contains(w.last())
                && stops_at_first_repeat(parents, w);
            if g.valid_from(parents, name) {
                let c = parents + w;
                let j = choose|j: int| 0 <= j < c.drop_last().len() && c.drop_last()[j] == w.last();
                assert(c[j] == c[c.len() - 1]);
            }
        },
    }
}

fn find_target(targets: &Vec<(String, ProjectTarget)>, name: &str) -> (r: Option<usize>)
    ensures
        r.is_some() == project_graph(targets.deep_view()).index(name@).is_some(),
        r matches Some(i) ==> project_graph(targets.deep_view()).index(name@) == Some(i as int) && i < targets@.len(),
{
    let ghost g = project_graph(targets.deep_view());
    for i in 0..targets.len()
        invariant
            g == project_graph(targets.deep_view()),
            g.names.len() == targets@.len(),
            first_index(g.names.take(i as int), name@) is None,
    {
        assert(g.names.take(i + 1).drop_last() =~= g.names.take(i as int));
        assert(g.names[i as int] == targets@[i as int].0@);
        if str_eq(targets[i].0.as_str(), name) {
            assert(first_index(g.names.take(i + 1), name@) == Some(i as int));
            proof {
                lemma_first_index_stays(g.names, name@, i + 1);
            }
            return Some(i);
        }
    }
    assert(g.names.take(targets.len() as int) =~= g.names);
    None
}

fn contains_name(names: &Vec<String>, name: &str) -> (b: bool)
    ensures
        b == names.deep_view().contains(name@),
{
    for i in 0..names.len()
        invariant
            forall|k: int| 0 <= k < i ==> names.deep_view()[k] != name@,
    {
        if str_eq(names[i].as_str(), name) {
            assert(names.deep_view()[i as int] == name@);
            return true;
        }
    }
    false
}

/// Checks that the dependencies of `target` (the target `target_name`) exist,
/// transitively, and that no dependency chain from it comes back to a target
/// met before (`parent_targets` are the targets that led to it).
pub fn validate_target(target_name: &str, target: &ProjectTarget, parent_targets: &Vec<String>,
    targets: &Vec<(String, ProjectTarget)>) -> (r: Result<(), TargetError>)
    requires
        project_graph(targets.deep_view()).deps_of(target_name@) == Some(target@.dependencies),
    ensures
        parent_targets.deep_view().no_duplicates() ==> (r is Ok <==> project_graph(targets.deep_view()).valid_from(
            parent_targets.deep_view(), target_name@)),
        r matches Err(e) ==> target_error_is_justified(project_graph(targets.deep_view()),
            parent_targets.deep_view(), target_name@, e),
        parent_targets.deep_view().no_duplicates() ==> (r matches Err(TargetError::CircularDependency { chain })
            ==> chain.deep_view().drop_last().no_duplicates()),
    decreases unvisited(project_graph(targets.deep_view()), parent_targets.deep_view()).len(),
{
    let ghost g = project_graph(targets.deep_view());
    let ghost parents = parent_targets.deep_view();
    let ghost deps = target@.dependencies;
    if contains_name(parent_targets, target_name) {
        let mut chain = copy_strings(parent_targets);
        let ghost c0 = chain;
        chain.push(owned(target_name));
        let e = TargetError::CircularDependency { chain };
        proof {
            assert(chain@.drop_last() =~= c0@);
            lemma_push_deep_view(c0, chain);
            let w = seq![target_name@];
            assert(g.is_walk(w));
            assert((parents + w).drop_last() =~= parents);
            assert(chain.deep_view() =~= parents + w);
            assert(w.drop_last() =~= Seq::<Seq<char>>::empty());
            assert(stops_at_first_repeat(parents, w));
            assert(target_error_is_justified(g, parents, target_name@, e));
            if parents.no_duplicates() {
                lemma_chain_stops_at_first_repeat(parents, w);
            }
            lemma_justified_target_error_is_invalid(g, parents, target_name@, e);
        }
        return Err(e);
    }
    let mut chain = copy_strings(parent_targets);
    let ghost c0 = chain;
    chain.push(owned(target_name));
    let ghost path = parents.push(target_name@);
    proof {
        assert(chain@.drop_last() =~= c0@);
        lemma_push_deep_view(c0, chain);
        let i = g.index(target_name@).unwrap();
        lemma_first_index_spec(g.names, target_name@);
        assert(g.names[i] == target_name@);
        assert(g.names.contains(target_name@));
        lemma_unvisited_shrinks(g, parents, target_name@);
    }
    let dependencies = &target.dependencies;
    for k in 0..dependencies.len()
        invariant
            g == project_graph(targets.deep_view()),
            parents == parent_targets.deep_view(),
            chain.deep_view() == path,
            path == parents.push(target_name@),
            !parents.contains(target_name@),
            g.deps_of(target_name@) == Some(deps),
            deps == dependencies.deep_view(),
            unvisited(g, path).len() < unvisited(g, parents).len(),
            parents.no_duplicates() ==> forall|j: int| 0 <= j < k ==> #[trigger] g.valid_from(path, deps[j]),
    {
        let dependency_name = dependencies[k].as_str();
        assert(dependency_name@ == deps[k as int]);
        let idx = match find_target(targets, dependency_name) {
            Some(i) => i,
            None => {
                let e = TargetError::MissingDependency { target: owned(target_name), dependency: owned(dependency_name) };
                proof {
                    let w = seq![target_name@];
                    assert(g.is_walk(w));
                    assert(deps.contains(deps[k as int]));
                    assert(target_error_is_justified(g, parents, target_name@, e));
                    lemma_justified_target_error_is_invalid(g, parents, target_name@, e);
                }
                return Err(e);
            },
        };
        assert(targets.deep_view()[idx as int].1.dependencies == targets@[idx as int].1@.dependencies);
        let sub = validate_target(dependency_name, &targets[idx].1, &chain, targets);
        proof {
            assert(deps.contains(deps[k as int]));
            assert(g.step(target_name@, deps[k as int]));
        }
        match sub {
            Ok(()) => {
                proof {
                    if parents.no_duplicates() {
                        assert forall|a: int, b: int| 0 <= a < b < path.len() implies path[a] != path[b] by {
                            if b == path.len() - 1 {
                                assert(parents.contains(parents[a]));
                            }
                        }
                        assert(g.valid_from(path, deps[k as int]));
                    }
                }
            },
            Err(e) => {
                proof {
                    match &e {
                        TargetError::MissingDependency { target: t, dependency: d } => {
                            let w = choose|w: Seq<Seq<char>>| #[trigger] g.is_walk(w)
                                && w[0] == deps[k as int] && w.last() == t@ && g.index(t@) is Some
                                && g.deps_of(t@).unwrap().contains(d@) && g.index(d@) is None;
                            lemma_walk_prepend(g, target_name@, w);
                        },
                        TargetError::CircularDependency { chain: c } => {
                            let w = choose|w: Seq<Seq<char>>| #[trigger] g.is_walk(w) && w[0] == deps[k as int]
                                && c.deep_view() == path + w && (path + w).drop_last().contains(w.last())
                                && stops_at_first_repeat(path, w);
                            lemma_walk_prepend(g, target_name@, w);
                            assert(path + w =~= parents + (seq![target_name@] + w));
                            lemma_stops_at_first_repeat_prepend(parents, target_name@, w);
                            let w2 = seq![target_name@] + w;
                            assert(target_error_is_justified(g, parents, target_name@, e));
                            if parents.no_duplicates() {
                                lemma_chain_stops_at_first_repeat(parents, w2);
                            }
                        },
                    }
                    lemma_justified_target_error_is_invalid(g, parents, target_name@, e);
                }
                return Err(e);
            },
        }
    }
    proof {
        if parents.no_duplicates() {
            assert forall|w: Seq<Seq<char>>| #[trigger] g.is_walk(w) && w[0] == target_name@ implies
                (forall|k: int| 0 <= k < w.len() ==> (#[trigger] g.index(w[k])) is Some)
                && (parents + w).no_duplicates() by {
                if w.len() == 1 {
                    assert(parents + w =~= path);
                    assert forall|a: int, b: int| 0 <= a < b < path.len() implies path[a] != path[b] by {
                        if b == path.len() - 1 {
                            assert(parents.contains(parents[a]));
                        }
                    }
                    assert(g.index(w[0]) is Some);
                } else {
                    lemma_walk_tail(g, w);
                    let t = w.drop_first();
                    let d = t[0];
                    assert(deps.contains(d));
                    let j = choose|j: int| 0 <= j < deps.len() && deps[j] == d;
                    assert(g.valid_from(path, deps[j]));
                    assert(g.is_walk(t) && t[0] == deps[j]);
                    assert(parents + w =~= path + t);
                    assert forall|k: int| 0 <= k < w.len() implies (#[trigger] g.index(w[k])) is Some by {
                        if k > 0 {
                            assert(w[k] == t[k - 1]);
                            assert(g.index(t[k - 1]) is Some);
                        }
                    }
                }
            }
        }
    }
    Ok(())
}

/// Why the targets of a project are not valid.
#[derive(Debug, Clone, PartialEq, Eq)]
pub enum ValidationError {
    /// A target's name is not an identifier.
    InvalidName { name: String },
    /// The target `target` is invalid, for `cause`.
    Invalid { target: String, cause: TargetError },
}

impl ValidationError {
    pub fn message(&self) -> (r: String)
        ensures
            match self {
                ValidationError::InvalidName { name } => r@ == name@ + " is not a valid target name"@,
                ValidationError::Invalid { target, .. } => r@ == "Target "@ + target@ + " is invalid"@,
            },
    {
        match self {
            ValidationError::InvalidName { name } => {
                let mut r = owned(name.as_str());
                r.append(" is not a valid target name");
                proof {
                    reveal_strlit(" is not a valid target name");
                }
                r
            },
            ValidationError::Invalid { target, .. } => {
                let mut r = owned("Target ");
                r.append(target.as_str());
                r.append(" is invalid");
                proof {
                    reveal_strlit("Target ");
                    reveal_strlit(" is invalid");
                }
                r
            },
        }
    }
}

/// Checks each target of `targets` in turn: its name is an identifier and it
/// is valid. The first failure is reported.
pub fn validate_targets(targets: &Vec<(String, ProjectTarget)>) -> (r: Result<(), ValidationError>)
    requires
        project_graph(targets.deep_view()).names.no_duplicates(),
    ensures
        r is Ok <==> forall|i: int| 0 <= i < targets@.len() ==> is_ident(#[trigger] targets.deep_view()[i].0)
            && project_graph(targets.deep_view()).valid_from(Seq::empty(), targets.deep_view()[i].0),
        r matches Err(ValidationError::InvalidName { name }) ==> !is_ident(name@)
            && project_graph(targets.deep_view()).names.contains(name@),
        r matches Err(ValidationError::Invalid { target, cause }) ==> target_error_is_justified(
            project_graph(targets.deep_view()), Seq::empty(), target@, cause),
{
    let ghost g = project_graph(targets.deep_view());
    let parents: Vec<String> = Vec::new();
    assert(parents.deep_view() =~= Seq::<Seq<char>>::empty());
    for i in 0..targets.len()
        invariant
            g == project_graph(targets.deep_view()),
            g.names.no_duplicates(),
            parents.deep_view() == Seq::<Seq<char>>::empty(),
            forall|j: int| 0 <= j < i ==> is_ident(#[trigger] targets.deep_view()[j].0)
                && g.valid_from(Seq::empty(), targets.deep_view()[j].0),
    {
        let name = targets[i].0.as_str();
        assert(targets.deep_view()[i as int].0 == name@);
        assert(g.names[i as int] == name@);
        if !is_valid_target_name(name) {
            proof {
                assert(g.names.contains(name@));
            }
            return Err(ValidationError::InvalidName { name: owned(name) });
        }
        proof {
            lemma_first_index_spec(g.names, name@);
            let j = g.index(name@).unwrap();
            assert(j == i);
            assert(g.deps[i as int] == targets@[i as int].1@.dependencies);
        }
        match validate_target(name, &targets[i].1, &parents, targets) {
            Ok(()) => {},
            Err(cause) => {
                proof {
                    lemma_justified_target_error_is_invalid(g, Seq::empty(), name@, cause);
                }
                return Err(ValidationError::Invalid { target: owned(name), cause });
            },
        }
    }
    Ok(())
}

} // verus!
