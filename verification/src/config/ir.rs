//! Resolution of the targets of a build flow from its configuration.

use super::yaml;
use crate::domain::{TargetId, TargetIdView, Target, TargetView, TargetMetadata, TargetMetadataView, BuildTarget,
    ServiceTarget, AggregateTarget, Resources, ResourcesView, FilesResource, FilesResourceView, CmdResource,
    CmdResourceView, InvalidTargetName, parse_target_id, canonical_name, copy_ids, copy_strings, contains_id,
    empty_resources, extended_resources, lemma_parse_plain, lemma_parse_qualified, listed, listed_before,
    ordered_targets, ids_distinct, dependencies_before, position_of, first_separator};
use crate::paths::{join_path, joined_path, join_paths, joined_paths};
use crate::text::{is_ident, starts_with, ends_with, chars_of, is_ident_range, seq_ends_with, str_starts_with,
    owned, join_seq, join_strings, lemma_push_deep_view};
use vstd::prelude::*;
use vstd::string::*;

verus! {

// ----------------------------------------------------------------------------
// The configuration, indexed by project name
// ----------------------------------------------------------------------------

/// The projects of a build flow, by name: (project name, project directory, project).
pub struct Config {
    pub root_project_name: Option<String>,
    pub projects: Vec<(Option<String>, String, yaml::Project)>,
}

pub type ProjectEntry = (Option<String>, String, yaml::Project);

/// Index of the first project named `name`.
pub open spec fn project_index(ps: Seq<ProjectEntry>, name: Option<Seq<char>>) -> Option<int> {
    if exists|i: int| is_first_project(ps, name, i) {
        Some(choose|i: int| is_first_project(ps, name, i))
    } else {
        None
    }
}

pub open spec fn is_first_project(ps: Seq<ProjectEntry>, name: Option<Seq<char>>, i: int) -> bool {
    &&& 0 <= i < ps.len()
    &&& ps[i].0.deep_view() == name
    &&& forall|j: int| 0 <= j < i ==> (#[trigger] ps[j]).0.deep_view() != name
}

/// Index of the first target named `name`.
pub open spec fn target_index(ts: Seq<(String, yaml::Target)>, name: Seq<char>) -> Option<int> {
    if exists|i: int| is_first_target(ts, name, i) {
        Some(choose|i: int| is_first_target(ts, name, i))
    } else {
        None
    }
}

pub open spec fn is_first_target(ts: Seq<(String, yaml::Target)>, name: Seq<char>, i: int) -> bool {
    &&& 0 <= i < ts.len()
    &&& ts[i].0@ == name
    &&& forall|j: int| 0 <= j < i ==> (#[trigger] ts[j]).0@ != name
}

pub open spec fn has_project(ps: Seq<ProjectEntry>, name: Option<Seq<char>>) -> bool {
    project_index(ps, name) is Some
}

/// The directory and the definition of the target `id`.
pub open spec fn lookup(ps: Seq<ProjectEntry>, id: TargetIdView) -> Option<(Seq<char>, yaml::Target)> {
    match project_index(ps, id.project_name) {
        None => None,
        Some(p) => match target_index(ps[p].2.targets@, id.target_name) {
            None => None,
            Some(t) => Some((ps[p].1@, ps[p].2.targets@[t].1)),
        },
    }
}

/// The identifiers of all the targets, project after project.
pub open spec fn all_ids(ps: Seq<ProjectEntry>) -> Seq<TargetIdView>
    decreases ps.len(),
{
    if ps.len() == 0 {
        Seq::empty()
    } else {
        all_ids(ps.drop_last()) + project_ids(ps.last())
    }
}

pub open spec fn project_ids(e: ProjectEntry) -> Seq<TargetIdView> {
    e.2.targets@.map_values(|t: (String, yaml::Target)| TargetIdView { project_name: e.0.deep_view(), target_name: t.0@ })
}

pub proof fn lemma_all_ids_contains(ps: Seq<ProjectEntry>, p: int, t: int)
    requires
        0 <= p < ps.len(),
        0 <= t < ps[p].2.targets@.len(),
    ensures
        all_ids(ps).contains(TargetIdView { project_name: ps[p].0.deep_view(), target_name: ps[p].2.targets@[t].0@ }),
    decreases ps.len(),
{
    let id = TargetIdView { project_name: ps[p].0.deep_view(), target_name: ps[p].2.targets@[t].0@ };
    let pre = all_ids(ps.drop_last());
    let last = project_ids(ps.last());
    if p == ps.len() - 1 {
        assert(last[t] == id);
        assert((pre + last)[pre.len() + t] == id);
    } else {
        lemma_all_ids_contains(ps.drop_last(), p, t);
        assert(ps.drop_last()[p] == ps[p]);
        let k = choose|k: int| 0 <= k < pre.len() && pre[k] == id;
        assert((pre + last)[k] == id);
    }
}

/// Every target that can be looked up is listed by `all_ids`.
pub proof fn lemma_lookup_listed(ps: Seq<ProjectEntry>, id: TargetIdView)
    requires
        lookup(ps, id) is Some,
    ensures
        all_ids(ps).contains(id),
{
    let p = project_index(ps, id.project_name)->0;
    let t = target_index(ps[p].2.targets@, id.target_name)->0;
    lemma_all_ids_contains(ps, p, t);
}

/// Whether two optional names are the same.
pub fn same_name(a: &Option<String>, b: &Option<String>) -> (r: bool)
    ensures
        r == (a.deep_view() == b.deep_view()),
{
    match (a, b) {
        (Some(x), Some(y)) => *x == *y,
        (None, None) => true,
        _ => false,
    }
}

fn copy_name(a: &Option<String>) -> (r: Option<String>)
    ensures
        r.deep_view() == a.deep_view(),
{
    match a {
        Some(x) => Some(owned(x.as_str())),
        None => None,
    }
}

/// Finds the first project named `name`.
pub fn find_project(projects: &Vec<ProjectEntry>, name: &Option<String>) -> (r: Option<usize>)
    ensures
        match r {
            Some(i) => project_index(projects@, name.deep_view()) == Some(i as int),
            None => project_index(projects@, name.deep_view()) is None,
        },
{
    for i in 0..projects.len()
        invariant
            forall|j: int| 0 <= j < i ==> (#[trigger] projects@[j]).0.deep_view() != name.deep_view(),
    {
        if same_name(&projects[i].0, name) {
            assert(is_first_project(projects@, name.deep_view(), i as int));
            return Some(i);
        }
    }
    assert(forall|i: int| !is_first_project(projects@, name.deep_view(), i));
    None
}

/// Finds the first target named `name`.
pub fn find_target(targets: &Vec<(String, yaml::Target)>, name: &String) -> (r: Option<usize>)
    ensures
        match r {
            Some(i) => target_index(targets@, name@) == Some(i as int),
            None => target_index(targets@, name@) is None,
        },
{
    for i in 0..targets.len()
        invariant
            forall|j: int| 0 <= j < i ==> (#[trigger] targets@[j]).0@ != name@,
    {
        if targets[i].0 == *name {
            assert(is_first_target(targets@, name@, i as int));
            return Some(i);
        }
    }
    assert(forall|i: int| !is_first_target(targets@, name@, i));
    None
}

/// Index of the last project of `ps` whose name is `name`.
pub open spec fn is_last_named(ps: Seq<(String, yaml::Project)>, name: Option<Seq<char>>, j: int) -> bool {
    &&& 0 <= j < ps.len()
    &&& ps[j].1.name.deep_view() == name
    &&& forall|k: int| j < k < ps.len() ==> (#[trigger] ps[k]).1.name.deep_view() != name
}

/// `e` is the last project of `ps` with its name, indexed by that name.
pub open spec fn kept_entry(ps: Seq<(String, yaml::Project)>, e: ProjectEntry) -> bool {
    exists|j: int| is_last_named(ps, e.0.deep_view(), j) && e.1@ == ps[j].0@ && e.2 == ps[j].1
}

/// A project named `name` exists whenever one of the entries is named so.
pub proof fn lemma_project_found(ps: Seq<ProjectEntry>, name: Option<Seq<char>>, k: int)
    requires
        0 <= k < ps.len(),
        ps[k].0.deep_view() == name,
    ensures
        has_project(ps, name),
    decreases k,
{
    if exists|j: int| 0 <= j < k && (#[trigger] ps[j]).0.deep_view() == name {
        let j = choose|j: int| 0 <= j < k && (#[trigger] ps[j]).0.deep_view() == name;
        lemma_project_found(ps, name, j);
    } else {
        assert(is_first_project(ps, name, k));
    }
}

impl Config {
    /// Indexes the projects of `config` by name. When two projects share a name,
    /// the later one is kept.
    pub fn from(config: yaml::Config) -> (r: Config)
        requires
            exists|i: int| 0 <= i < config.projects@.len() && (#[trigger] config.projects@[i]).0@ == config.root_project_dir@,
        ensures
            exists|i: int| 0 <= i < config.projects@.len() && (#[trigger] config.projects@[i]).0@ == config.root_project_dir@
                && r.root_project_name.deep_view() == config.projects@[i].1.name.deep_view()
                && forall|j: int| 0 <= j < i ==> (#[trigger] config.projects@[j]).0@ != config.root_project_dir@,
            forall|k1: int, k2: int| 0 <= k1 < k2 < r.projects@.len() ==>
                (#[trigger] r.projects@[k1]).0.deep_view() != (#[trigger] r.projects@[k2]).0.deep_view(),
            forall|k: int| 0 <= k < r.projects@.len() ==> kept_entry(config.projects@, #[trigger] r.projects@[k]),
            forall|j: int| 0 <= j < config.projects@.len() ==> has_project(r.projects@, (#[trigger] config.projects@[j]).1.name.deep_view()),
    {
        let yaml::Config { root_project_dir, projects: mut input } = config;
        let ghost all = input@;
        let mut root_project_name: Option<String> = None;
        let mut found = false;
        let mut i: usize = 0;
        while i < input.len()
            invariant
                input@ == all,
                0 <= i <= input@.len(),
                !found ==> forall|j: int| 0 <= j < i ==> (#[trigger] all[j]).0@ != root_project_dir@,
                found ==> exists|j: int| 0 <= j < all.len() && (#[trigger] all[j]).0@ == root_project_dir@
                    && root_project_name.deep_view() == all[j].1.name.deep_view()
                    && forall|m: int| 0 <= m < j ==> (#[trigger] all[m]).0@ != root_project_dir@,
            decreases input@.len() - i,
        {
            if !found && input[i].0 == root_project_dir {
                root_project_name = copy_name(&input[i].1.name);
                found = true;
            }
            i = i + 1;
        }
        let mut projects: Vec<ProjectEntry> = Vec::new();
        while input.len() > 0
            invariant
                all.len() >= input@.len(),
                input@ == all.take(input@.len() as int),
                forall|k1: int, k2: int| 0 <= k1 < k2 < projects@.len() ==>
                    (#[trigger] projects@[k1]).0.deep_view() != (#[trigger] projects@[k2]).0.deep_view(),
                forall|k: int| 0 <= k < projects@.len() ==> kept_entry(all, #[trigger] projects@[k]),
                forall|j: int| input@.len() <= j < all.len() ==> exists|k: int| 0 <= k < projects@.len()
                    && (#[trigger] projects@[k]).0.deep_view() == (#[trigger] all[j]).1.name.deep_view(),
            decreases input@.len(),
        {
            let ghost n = input@.len();
            let ghost before = projects@;
            let (dir, project) = input.pop().unwrap();
            let ghost j = (n - 1) as int;
            assert(all[j] == (dir, project)) by {
                assert(all.take(n as int)[j] == all[j]);
            }
            assert(input@ =~= all.take(j));
            let existing = find_project(&projects, &project.name);
            if existing.is_none() {
                let name = copy_name(&project.name);
                proof {
                    assert forall|m: int| j < m < all.len() implies (#[trigger] all[m]).1.name.deep_view() != project.name.deep_view() by {
                        if all[m].1.name.deep_view() == project.name.deep_view() {
                            let k = choose|k: int| 0 <= k < projects@.len() && (#[trigger] projects@[k]).0.deep_view() == all[m].1.name.deep_view();
                            lemma_project_found(projects@, project.name.deep_view(), k);
                        }
                    }
                    assert(is_last_named(all, project.name.deep_view(), j));
                    assert forall|k: int| 0 <= k < projects@.len() implies (#[trigger] projects@[k]).0.deep_view() != project.name.deep_view() by {
                        if projects@[k].0.deep_view() == project.name.deep_view() {
                            lemma_project_found(projects@, project.name.deep_view(), k);
                        }
                    }
                }
                projects.push((name, dir, project));
                proof {
                    let last = projects@.len() - 1;
                    assert(projects@[last].0.deep_view() == all[j].1.name.deep_view());
                    assert forall|k: int| 0 <= k < projects@.len() implies kept_entry(all, #[trigger] projects@[k]) by {
                        if k < last {
                            assert(projects@[k] == before[k]);
                        } else {
                            assert(is_last_named(all, projects@[k].0.deep_view(), j)
                                && projects@[k].1@ == all[j].0@ && projects@[k].2 == all[j].1);
                        }
                    }
                    assert forall|m: int| input@.len() <= m < all.len() implies exists|k: int| 0 <= k < projects@.len()
                        && (#[trigger] projects@[k]).0.deep_view() == (#[trigger] all[m]).1.name.deep_view() by {
                        if m == j {
                            assert(projects@[last].0.deep_view() == all[m].1.name.deep_view());
                        } else {
                            let k = choose|k: int| 0 <= k < before.len() && (#[trigger] before[k]).0.deep_view() == all[m].1.name.deep_view();
                            assert(projects@[k] == before[k]);
                        }
                    }
                }
            } else {
                proof {
                    assert(projects@ == before);
                    let q = existing->0 as int;
                    assert(is_first_project(projects@, project.name.deep_view(), q));
                    assert(projects@[q].0.deep_view() == all[j].1.name.deep_view());
                }
            }
        }
        proof {
            assert forall|j: int| 0 <= j < all.len() implies has_project(projects@, (#[trigger] all[j]).1.name.deep_view()) by {
                let k = choose|k: int| 0 <= k < projects@.len() && (#[trigger] projects@[k]).0.deep_view() == all[j].1.name.deep_view();
                lemma_project_found(projects@, all[j].1.name.deep_view(), k);
            }
            assert(all == config.projects@);
        }
        Config { root_project_name, projects }
    }
}

} // verus!

verus! {

// ----------------------------------------------------------------------------
// Listing targets
// ----------------------------------------------------------------------------

/// The dependencies of a target, as written.
pub open spec fn yaml_dependencies(t: yaml::Target) -> Seq<Seq<char>> {
    match t {
        yaml::Target::Build { dependencies, .. } => dependencies.0.deep_view(),
        yaml::Target::Service { dependencies, .. } => dependencies.0.deep_view(),
        yaml::Target::Aggregate { dependencies } => dependencies.0.deep_view(),
    }
}

/// The dependencies of a target, as written.
pub fn get_dependencies(target: &yaml::Target) -> (r: &Vec<String>)
    ensures
        r.deep_view() == yaml_dependencies(*target),
{
    match target {
        yaml::Target::Build { dependencies, .. } => &dependencies.0,
        yaml::Target::Service { dependencies, .. } => &dependencies.0,
        yaml::Target::Aggregate { dependencies } => &dependencies.0,
    }
}

/// The canonical names of the targets of a build flow, as the command line accepts them.
pub open spec fn available_target_names(ps: Seq<ProjectEntry>, root: Option<Seq<char>>) -> Seq<Seq<char>> {
    all_ids(ps).map_values(|id: TargetIdView| canonical_name(id)) + match root {
        Some(_) => ps[project_index(ps, root)->0].2.targets@.map_values(|t: (String, yaml::Target)| t.0@),
        None => Seq::empty(),
    }
}

impl Config {
    /// The identifiers of all the targets of all the projects.
    pub fn list_all_targets(&self) -> (r: Vec<TargetId>)
        ensures
            r.deep_view() == all_ids(self.projects@),
    {
        let ghost ps = self.projects@;
        let mut r: Vec<TargetId> = Vec::new();
        for i in 0..self.projects.len()
            invariant
                ps == self.projects@,
                r.deep_view() == all_ids(ps.take(i as int)),
        {
            let ghost before = r.deep_view();
            let targets = &self.projects[i].2.targets;
            assert(ps.take(i + 1).drop_last() =~= ps.take(i as int));
            for j in 0..targets.len()
                invariant
                    ps == self.projects@,
                    i < ps.len(),
                    targets == &ps[i as int].2.targets,
                    r.deep_view() == before + project_ids(ps[i as int]).take(j as int),
            {
                let id = TargetId { project_name: copy_name(&self.projects[i].0), target_name: owned(targets[j].0.as_str()) };
                let ghost r0 = r;
                r.push(id);
                proof {
                    assert(r@.drop_last() =~= r0@);
                    lemma_push_deep_view(r0, r);
                    assert(r.deep_view() =~= before + project_ids(ps[i as int]).take(j + 1));
                }
            }
            assert(project_ids(ps[i as int]).take(targets.len() as int) =~= project_ids(ps[i as int]));
            assert(ps.take(i + 1).last() == ps[i as int]);
        }
        assert(ps.take(ps.len() as int) =~= ps);
        r
    }

    /// The names of all the targets: their canonical names and, for the targets
    /// of the root project when it has a name, their plain names too.
    pub fn list_all_available_target_names(&self) -> (r: Vec<String>)
        requires
            self.root_project_name is Some ==> has_project(self.projects@, self.root_project_name.deep_view()),
        ensures
            r.deep_view() == available_target_names(self.projects@, self.root_project_name.deep_view()),
    {
        let ids = self.list_all_targets();
        let mut r: Vec<String> = Vec::new();
        for i in 0..ids.len()
            invariant
                ids.deep_view() == all_ids(self.projects@),
                r.deep_view() == all_ids(self.projects@).map_values(|id: TargetIdView| canonical_name(id)).take(i as int),
        {
            let ghost r0 = r;
            r.push(ids[i].to_string());
            proof {
                assert(r@.drop_last() =~= r0@);
                lemma_push_deep_view(r0, r);
                assert(r.deep_view() =~= all_ids(self.projects@).map_values(|id: TargetIdView| canonical_name(id)).take(i + 1));
            }
        }
        let ghost first = all_ids(self.projects@).map_values(|id: TargetIdView| canonical_name(id));
        assert(first.take(ids.len() as int) =~= first);
        if self.root_project_name.is_some() {
            let p = find_project(&self.projects, &self.root_project_name).unwrap();
            let targets = &self.projects[p].2.targets;
            let ghost extra = targets@.map_values(|t: (String, yaml::Target)| t.0@);
            for j in 0..targets.len()
                invariant
                    r.deep_view() == first + extra.take(j as int),
                    extra == targets@.map_values(|t: (String, yaml::Target)| t.0@),
            {
                let ghost r0 = r;
                r.push(owned(targets[j].0.as_str()));
                proof {
                    assert(r@.drop_last() =~= r0@);
                    lemma_push_deep_view(r0, r);
                    assert(r.deep_view() =~= first + extra.take(j + 1));
                }
            }
            assert(extra.take(targets.len() as int) =~= extra);
        } else {
            assert(first + Seq::<Seq<char>>::empty() =~= first);
        }
        r
    }
}

// ----------------------------------------------------------------------------
// Errors
// ----------------------------------------------------------------------------

/// Why the targets of a build flow cannot be resolved.
#[derive(Debug)]
pub enum ConfigError {
    /// A target refers to a project that does not exist.
    ProjectNotFound { project_name: String },
    /// A target refers to a target that does not exist.
    TargetNotFound { target_id: TargetId },
    /// A target depends on itself, through the chain of dependencies given (its
    /// last element occurs earlier in it).
    CircularDependency { chain: Vec<TargetId> },
    /// A dependency holds more than one `::`.
    InvalidTargetName(InvalidTargetName),
    /// An input resource is neither files, a command nor `<target>.output`.
    InvalidInput { input: String },
    /// A target reads the output of a target that is not a build target.
    NotBuildDependency { target_id: TargetId, dependency_id: TargetId },
}

impl ConfigError {
    /// The message that reports this error.
    pub fn message(&self) -> (r: String)
        ensures
            r@ == match self {
                ConfigError::ProjectNotFound { project_name } => "Project "@ + project_name@ + " does not exist"@,
                ConfigError::TargetNotFound { target_id } => "Target "@ + canonical_name(target_id@) + " does not exist"@,
                ConfigError::CircularDependency { chain } => "Circular dependency: "@
                    + join_seq(chain.deep_view().map_values(|id: TargetIdView| canonical_name(id)), " -> "@),
                ConfigError::InvalidTargetName(e) => "Invalid target canonical name: "@ + e.name@
                    + " (expected a maximum of one '::' delimiter)"@,
                ConfigError::InvalidInput { input } => "Invalid input: "@ + input@,
                ConfigError::NotBuildDependency { target_id, dependency_id } => "Target "@ + canonical_name(target_id@)
                    + " can not depend on "@ + canonical_name(dependency_id@) + "'s output as it is not a build target"@,
            },
    {
        match self {
            ConfigError::ProjectNotFound { project_name } => {
                let mut r = owned("Project ");
                r.append(project_name.as_str());
                r.append(" does not exist");
                r
            },
            ConfigError::TargetNotFound { target_id } => {
                let mut r = owned("Target ");
                r.append(target_id.to_string().as_str());
                r.append(" does not exist");
                r
            },
            ConfigError::CircularDependency { chain } => {
                let mut names: Vec<String> = Vec::new();
                for i in 0..chain.len()
                    invariant
                        names.deep_view() == chain.deep_view().map_values(|id: TargetIdView| canonical_name(id)).take(i as int),
                {
                    let ghost n0 = names;
                    names.push(chain[i].to_string());
                    proof {
                        assert(names@.drop_last() =~= n0@);
                        lemma_push_deep_view(n0, names);
                        assert(names.deep_view() =~= chain.deep_view().map_values(|id: TargetIdView| canonical_name(id)).take(i + 1));
                    }
                }
                assert(chain.deep_view().map_values(|id: TargetIdView| canonical_name(id)).take(chain.len() as int)
                    =~= chain.deep_view().map_values(|id: TargetIdView| canonical_name(id)));
                let mut r = owned("Circular dependency: ");
                r.append(join_strings(&names, " -> ").as_str());
                r
            },
            ConfigError::InvalidTargetName(e) => e.message(),
            ConfigError::InvalidInput { input } => {
                let mut r = owned("Invalid input: ");
                r.append(input.as_str());
                r
            },
            ConfigError::NotBuildDependency { target_id, dependency_id } => {
                let mut r = owned("Target ");
                r.append(target_id.to_string().as_str());
                r.append(" can not depend on ");
                r.append(dependency_id.to_string().as_str());
                r.append("'s output as it is not a build target");
                r
            },
        }
    }
}

} // verus!

verus! {

// ----------------------------------------------------------------------------
// From written targets to domain targets
// ----------------------------------------------------------------------------

/// `t` splits at `i` into two identifiers around a `::`.
pub open spec fn splits_at(t: Seq<char>, i: int) -> bool {
    &&& 0 < i
    &&& i + 2 < t.len()
    &&& t[i] == ':'
    &&& t[i + 1] == ':'
    &&& is_ident(t.take(i))
    &&& is_ident(t.skip(i + 2))
}

/// `t` is `target` or `project::target` (the pattern `(\w[-\w]*::)?\w[-\w]*`).
pub open spec fn is_qualified_ident(t: Seq<char>) -> bool {
    is_ident(t) || exists|i: int| #[trigger] splits_at(t, i)
}

/// The canonical name of the target whose output `s` designates: `s` is that
/// name followed by `.output`.
pub open spec fn dependency_output_name(s: Seq<char>) -> Option<Seq<char>> {
    if s.len() > 7 && ends_with(s, ".output"@) && is_qualified_ident(s.take(s.len() - 7)) {
        Some(s.take(s.len() - 7))
    } else {
        None
    }
}

/// Parses `<target>.output` or `<project>::<target>.output` into the identifier
/// of the target (in `current_project` when no project is given).
pub fn parse_dependency_output(s: &str, current_project: &Option<String>) -> (r: Option<TargetId>)
    ensures
        match dependency_output_name(s@) {
            Some(name) => r is Some && parse_target_id(name, current_project.deep_view()) == Some(r->0@),
            None => r is None,
        },
{
    let v = chars_of(s);
    let n = v.len();
    let suffix = chars_of(".output");
    proof {
        reveal_strlit(".output");
    }
    if n <= suffix.len() || !seq_ends_with(&v, &suffix) {
        return None;
    }
    let m = n - suffix.len();
    let ghost t = s@.take(m as int);
    assert(v@.subrange(0, m as int) =~= t);
    if is_ident_range(&v, 0, m) {
        let name = owned(s.substring_char(0, m));
        proof {
            lemma_parse_plain(t, current_project.deep_view());
        }
        return Some(TargetId { project_name: copy_name(current_project), target_name: name });
    }
    let mut i: usize = 1;
    while i <= m && m - i > 2
        invariant
            1 <= i,
            m < n,
            m + 7 == n,
            ends_with(s@, ".output"@),
            ".output"@.len() == 7,
            !is_ident(t),
            n == v@.len(),
            v@ == s@,
            t == s@.take(m as int),
            forall|k: int| 1 <= k < i ==> !#[trigger] splits_at(t, k),
        decreases m - i,
    {
        if v[i] == ':' && v[i + 1] == ':' {
            let left = is_ident_range(&v, 0, i);
            let right = is_ident_range(&v, i + 2, m);
            assert(v@.subrange(0, i as int) =~= t.take(i as int));
            assert(v@.subrange(i + 2, m as int) =~= t.skip(i + 2));
            if left && right {
                let project = owned(s.substring_char(0, i));
                let name = owned(s.substring_char(i + 2, m));
                proof {
                    assert(splits_at(t, i as int));
                    assert forall|k: int| 0 <= k < i implies t[k] != ':' by {
                        assert(v@[k] != ':');
                    }
                    assert forall|k: int| i + 2 <= k < t.len() implies t[k] != ':' by {
                        assert(v@[k] != ':');
                    }
                    lemma_parse_qualified(t, i as int, current_project.deep_view());
                    assert(s@.subrange(0, i as int) =~= t.take(i as int));
                    assert(s@.subrange(i + 2, m as int) =~= t.skip(i + 2));
                }
                return Some(TargetId { project_name: Some(project), target_name: name });
            }
        }
        i = i + 1;
    }
    proof {
        assert forall|k: int| !#[trigger] splits_at(t, k) by {
            if 1 <= k < i {
            }
        }
        assert(!is_qualified_ident(t));
    }
    None
}

/// An extension, starting with `.`.
pub open spec fn normalized_extension(e: Seq<char>) -> Seq<char> {
    if starts_with(e, "."@) {
        e
    } else {
        "."@ + e
    }
}

/// The non-empty extensions of `exts`, each starting with `.`.
pub open spec fn normalized_extensions(exts: Seq<Seq<char>>) -> Seq<Seq<char>>
    decreases exts.len(),
{
    if exts.len() == 0 {
        Seq::empty()
    } else if exts.last().len() > 0 {
        normalized_extensions(exts.drop_last()).push(normalized_extension(exts.last()))
    } else {
        normalized_extensions(exts.drop_last())
    }
}

/// The extensions that restrict a files resource: `None` when none is given or
/// all those given are empty.
pub open spec fn extension_set(exts: Option<Seq<Seq<char>>>) -> Option<Set<Seq<char>>> {
    match exts {
        None => None,
        Some(es) => if normalized_extensions(es).len() == 0 {
            None
        } else {
            Some(normalized_extensions(es).to_set())
        },
    }
}

/// Normalizes the extensions of a files resource (see `extension_set`).
fn normalize_extensions(extensions: Option<Vec<String>>) -> (r: Option<Vec<String>>)
    ensures
        match r {
            None => extension_set(extensions.deep_view()) is None,
            Some(v) => extension_set(extensions.deep_view()) == Some(v.deep_view().to_set()),
        },
{
    match extensions {
        None => None,
        Some(exts) => {
            let ghost ev = exts.deep_view();
            let mut r: Vec<String> = Vec::new();
            for i in 0..exts.len()
                invariant
                    ev == exts.deep_view(),
                    r.deep_view() == normalized_extensions(ev.take(i as int)),
            {
                assert(ev.take(i + 1).drop_last() =~= ev.take(i as int));
                assert(ev.take(i + 1).last() == ev[i as int]);
                let e = &exts[i];
                if e.unicode_len() > 0 {
                    let ghost r0 = r;
                    if str_starts_with(e.as_str(), ".") {
                        r.push(owned(e.as_str()));
                    } else {
                        let mut x = owned(".");
                        x.append(e.as_str());
                        r.push(x);
                    }
                    proof {
                        assert(r@.drop_last() =~= r0@);
                        lemma_push_deep_view(r0, r);
                    }
                }
            }
            assert(ev.take(exts.len() as int) =~= ev);
            if r.len() == 0 {
                None
            } else {
                Some(r)
            }
        },
    }
}


/// The output resources of a target, once resolved against its project directory.
pub open spec fn transform_output_spec(output: Seq<yaml::OutputResource>, dir: Seq<char>) -> ResourcesView
    decreases output.len(),
{
    if output.len() == 0 {
        empty_resources()
    } else {
        let acc = transform_output_spec(output.drop_last(), dir);
        match output.last() {
            yaml::OutputResource::Files { paths } => ResourcesView {
                files: acc.files.push(FilesResourceView { paths: joined_paths(dir, paths.deep_view()), extensions: None }),
                cmds: acc.cmds,
            },
            yaml::OutputResource::CmdStdout { cmd_stdout } => ResourcesView {
                files: acc.files,
                cmds: acc.cmds.push(CmdResourceView { cmd: cmd_stdout@, dir }),
            },
        }
    }
}

/// The input resources of a target, once resolved against its project directory,
/// and the targets whose output it reads; or the first input that is invalid.
pub open spec fn transform_input_spec(input: Seq<yaml::InputResource>, id: TargetIdView, dir: Seq<char>)
    -> Result<(ResourcesView, Seq<TargetIdView>), Seq<char>>
    decreases input.len(),
{
    if input.len() == 0 {
        Ok((empty_resources(), Seq::empty()))
    } else {
        match transform_input_spec(input.drop_last(), id, dir) {
            Err(e) => Err(e),
            Ok((acc, deps)) => match input.last() {
                yaml::InputResource::Files { paths, extensions } => Ok((ResourcesView {
                    files: acc.files.push(FilesResourceView {
                        paths: joined_paths(dir, paths.deep_view()),
                        extensions: extension_set(extensions.deep_view()),
                    }),
                    cmds: acc.cmds,
                }, deps)),
                yaml::InputResource::CmdStdout { cmd_stdout } => Ok((ResourcesView {
                    files: acc.files,
                    cmds: acc.cmds.push(CmdResourceView { cmd: cmd_stdout@, dir }),
                }, deps)),
                yaml::InputResource::DependencyOutput(s) => match dependency_output_name(s@) {
                    Some(name) => match parse_target_id(name, id.project_name) {
                        Some(dep) => Ok((acc, deps.push(dep))),
                        None => Err(s@),
                    },
                    None => Err(s@),
                },
            },
        }
    }
}

/// Resolves the output resources of a target.
pub fn transform_output(output: &yaml::OutputResources, project_dir: &str) -> (r: Resources)
    ensures
        r@ == transform_output_spec(output.0@, project_dir@),
{
    let ghost os = output.0@;
    let mut acc = Resources::new();
    assert(os.take(0) =~= Seq::<yaml::OutputResource>::empty());
    for i in 0..output.0.len()
        invariant
            os == output.0@,
            acc@ == transform_output_spec(os.take(i as int), project_dir@),
    {
        assert(os.take(i + 1).drop_last() =~= os.take(i as int));
        assert(os.take(i + 1).last() == os[i as int]);
        let ghost f0 = acc.files;
        let ghost c0 = acc.cmds;
        match &output.0[i] {
            yaml::OutputResource::Files { paths } => {
                acc.files.push(FilesResource { paths: join_paths(project_dir, paths), extensions: None });
                proof {
                    assert(acc.files@.drop_last() =~= f0@);
                    lemma_push_deep_view(f0, acc.files);
                }
            },
            yaml::OutputResource::CmdStdout { cmd_stdout } => {
                acc.cmds.push(CmdResource { cmd: owned(cmd_stdout.as_str()), dir: owned(project_dir) });
                proof {
                    assert(acc.cmds@.drop_last() =~= c0@);
                    lemma_push_deep_view(c0, acc.cmds);
                }
            },
        }
    }
    assert(os.take(output.0.len() as int) =~= os);
    acc
}

/// Resolves the input resources of a target, and lists the targets whose output it reads.
pub fn transform_input(input: &yaml::InputResources, target_id: &TargetId, project_dir: &str)
    -> (r: Result<(Resources, Vec<TargetId>), ConfigError>)
    ensures
        match r {
            Ok((res, deps)) => transform_input_spec(input.0@, target_id@, project_dir@) == Ok::<(ResourcesView, Seq<TargetIdView>), Seq<char>>((res@, deps.deep_view())),
            Err(ConfigError::InvalidInput { input: s }) => transform_input_spec(input.0@, target_id@, project_dir@) == Err::<(ResourcesView, Seq<TargetIdView>), Seq<char>>(s@),
            Err(_) => false,
        },
{
    let ghost is = input.0@;
    let mut acc = Resources::new();
    let mut deps: Vec<TargetId> = Vec::new();
    assert(deps.deep_view() =~= Seq::<TargetIdView>::empty());
    assert(is.take(0) =~= Seq::<yaml::InputResource>::empty());
    for i in 0..input.0.len()
        invariant
            is == input.0@,
            transform_input_spec(is.take(i as int), target_id@, project_dir@) == Ok::<(ResourcesView, Seq<TargetIdView>), Seq<char>>((acc@, deps.deep_view())),
    {
        assert(is.take(i + 1).drop_last() =~= is.take(i as int));
        assert(is.take(i + 1).last() == is[i as int]);
        let ghost f0 = acc.files;
        let ghost c0 = acc.cmds;
        let ghost d0 = deps;
        match &input.0[i] {
            yaml::InputResource::Files { paths, extensions } => {
                let exts = match extensions {
                    Some(e) => normalize_extensions(Some(copy_strings(e))),
                    None => None,
                };
                acc.files.push(FilesResource { paths: join_paths(project_dir, paths), extensions: exts });
                proof {
                    assert(acc.files@.drop_last() =~= f0@);
                    lemma_push_deep_view(f0, acc.files);
                }
            },
            yaml::InputResource::CmdStdout { cmd_stdout } => {
                acc.cmds.push(CmdResource { cmd: owned(cmd_stdout.as_str()), dir: owned(project_dir) });
                proof {
                    assert(acc.cmds@.drop_last() =~= c0@);
                    lemma_push_deep_view(c0, acc.cmds);
                }
            },
            yaml::InputResource::DependencyOutput(s) => {
                match parse_dependency_output(s.as_str(), &target_id.project_name) {
                    Some(dep) => {
                        deps.push(dep);
                        proof {
                            assert(deps@.drop_last() =~= d0@);
                            lemma_push_deep_view(d0, deps);
                        }
                    },
                    None => {
                        proof {
                            let k = i as int;
                            assert(transform_input_spec(is.take(k + 1), target_id@, project_dir@) == Err::<(ResourcesView, Seq<TargetIdView>), Seq<char>>(s@));
                            lemma_transform_input_error_persists(is, k + 1, target_id@, project_dir@);
                            assert(is.take(is.len() as int) =~= is);
                        }
                        return Err(ConfigError::InvalidInput { input: owned(s.as_str()) });
                    },
                }
            },
        }
    }
    assert(is.take(input.0.len() as int) =~= is);
    Ok((acc, deps))
}

/// Once a prefix of the input is invalid, so is the whole input, with the same error.
pub proof fn lemma_transform_input_error_persists(is: Seq<yaml::InputResource>, k: int, id: TargetIdView, dir: Seq<char>)
    requires
        0 <= k <= is.len(),
        transform_input_spec(is.take(k), id, dir) is Err,
    ensures
        transform_input_spec(is.take(is.len() as int), id, dir) == transform_input_spec(is.take(k), id, dir),
    decreases is.len() - k,
{
    if k < is.len() {
        assert(is.take(k + 1).drop_last() =~= is.take(k));
        lemma_transform_input_error_persists(is, k + 1, id, dir);
    }
}

} // verus!

verus! {

/// The identifiers that the dependency names denote, when all of them are valid.
pub open spec fn parsed_dependencies(names: Seq<Seq<char>>, current: Option<Seq<char>>) -> Option<Seq<TargetIdView>> {
    if forall|k: int| 0 <= k < names.len() ==> (#[trigger] parse_target_id(names[k], current)) is Some {
        Some(names.map_values(|n: Seq<char>| parse_target_id(n, current)->0))
    } else {
        None
    }
}

/// `k` is the first dependency name that is invalid.
pub open spec fn is_first_unparsable(names: Seq<Seq<char>>, current: Option<Seq<char>>, k: int) -> bool {
    &&& 0 <= k < names.len()
    &&& parse_target_id(names[k], current) is None
    &&& forall|m: int| 0 <= m < k ==> (#[trigger] parse_target_id(names[m], current)) is Some
}

/// Why a single written target cannot become a domain target.
pub enum TransformFailure {
    /// The first of its dependency names that is invalid.
    BadName(Seq<char>),
    /// The first of its input resources that is invalid.
    BadInput(Seq<char>),
}

/// The domain target that `yt` (the target `id`, in directory `dir`) becomes,
/// and the targets whose output it reads.
pub open spec fn transform_target_spec(id: TargetIdView, yt: yaml::Target, dir: Seq<char>)
    -> Result<(TargetView, Seq<TargetIdView>), TransformFailure>
{
    let names = yaml_dependencies(yt);
    match parsed_dependencies(names, id.project_name) {
        None => Err(TransformFailure::BadName(names[choose|k: int| is_first_unparsable(names, id.project_name, k)])),
        Some(deps) => {
            let metadata = TargetMetadataView { id, project_dir: dir, dependencies: deps };
            match yt {
                yaml::Target::Build { build, input, output, .. } => match transform_input_spec(input.0@, id, dir) {
                    Err(s) => Err(TransformFailure::BadInput(s)),
                    Ok((inp, from_input)) => Ok((TargetView::Build {
                        metadata,
                        build_script: build@,
                        input: inp,
                        output: transform_output_spec(output.0@, dir),
                    }, from_input)),
                },
                yaml::Target::Service { service, input, .. } => match transform_input_spec(input.0@, id, dir) {
                    Err(s) => Err(TransformFailure::BadInput(s)),
                    Ok((inp, from_input)) => Ok((TargetView::Service { metadata, run_script: service@, input: inp }, from_input)),
                },
                yaml::Target::Aggregate { .. } => Ok((TargetView::Aggregate { metadata }, Seq::empty())),
            }
        },
    }
}

/// Turns the written target `yaml_target`, named `target_id`, into a domain
/// target; also returns the targets whose output it reads.
pub fn transform_target(target_id: &TargetId, yaml_target: &yaml::Target, project_dir: &str)
    -> (r: Result<(Target, Vec<TargetId>), ConfigError>)
    ensures
        match r {
            Ok((t, from_input)) => transform_target_spec(target_id@, *yaml_target, project_dir@)
                == Ok::<(TargetView, Seq<TargetIdView>), TransformFailure>((t@, from_input.deep_view())),
            Err(ConfigError::InvalidTargetName(e)) => transform_target_spec(target_id@, *yaml_target, project_dir@)
                == Err::<(TargetView, Seq<TargetIdView>), TransformFailure>(TransformFailure::BadName(e.name@)),
            Err(ConfigError::InvalidInput { input }) => transform_target_spec(target_id@, *yaml_target, project_dir@)
                == Err::<(TargetView, Seq<TargetIdView>), TransformFailure>(TransformFailure::BadInput(input@)),
            Err(_) => false,
        },
{
    let ghost names = yaml_dependencies(*yaml_target);
    let ghost cur = target_id@.project_name;
    let names_vec = get_dependencies(yaml_target);
    let dependencies = match TargetId::try_parse_many(names_vec, &target_id.project_name) {
        Ok(d) => d,
        Err(e) => {
            proof {
                let k = choose|k: int| 0 <= k < names_vec@.len()
                    && parse_target_id(#[trigger] names_vec@[k]@, cur) is None
                    && e.name@ == names_vec@[k]@
                    && forall|m: int| 0 <= m < k ==> parse_target_id(#[trigger] names_vec@[m]@, cur) is Some;
                assert(names[k] == names_vec@[k]@);
                assert forall|m: int| 0 <= m < k implies (#[trigger] parse_target_id(names[m], cur)) is Some by {
                    assert(names[m] == names_vec@[m]@);
                }
                assert(is_first_unparsable(names, cur, k));
                let c = choose|c: int| is_first_unparsable(names, cur, c);
                if c < k {
                    assert(parse_target_id(names[c], cur) is Some);
                } else if k < c {
                    assert(parse_target_id(names[k], cur) is Some);
                }
                assert(parsed_dependencies(names, cur) is None);
            }
            return Err(ConfigError::InvalidTargetName(e));
        },
    };
    proof {
        assert(forall|k: int| 0 <= k < names.len() ==> (#[trigger] parse_target_id(names[k], cur)) is Some) by {
            assert forall|k: int| 0 <= k < names.len() implies (#[trigger] parse_target_id(names[k], cur)) is Some by {
                assert(names[k] == names_vec@[k]@);
                assert(parse_target_id(names[k], cur) == Some(dependencies@[k]@));
            }
        }
        assert(dependencies.deep_view() =~= names.map_values(|n: Seq<char>| parse_target_id(n, cur)->0));
    }
    let metadata = TargetMetadata { id: target_id.copy(), project_dir: owned(project_dir), dependencies };
    match yaml_target {
        yaml::Target::Build { build, input, output, .. } => {
            let (inp, from_input) = transform_input(input, &metadata.id, project_dir)?;
            let out = transform_output(output, project_dir);
            Ok((Target::Build(BuildTarget { metadata, build_script: owned(build.as_str()), input: inp, output: out }), from_input))
        },
        yaml::Target::Service { service, input, .. } => {
            let (inp, from_input) = transform_input(input, &metadata.id, project_dir)?;
            Ok((Target::Service(ServiceTarget { metadata, run_script: owned(service.as_str()), input: inp }), from_input))
        },
        yaml::Target::Aggregate { .. } => {
            let v: Vec<TargetId> = Vec::new();
            assert(v.deep_view() =~= Seq::<TargetIdView>::empty());
            Ok((Target::Aggregate(AggregateTarget { metadata }), v))
        },
    }
}

} // verus!

verus! {

// ----------------------------------------------------------------------------
// The dependency graph of a configuration
// ----------------------------------------------------------------------------

/// The dependencies of the target `id` once resolved: those it declares, then
/// the targets whose output it reads. `None` when it cannot be transformed.
pub open spec fn resolved_dependencies(ps: Seq<ProjectEntry>, id: TargetIdView) -> Option<Seq<TargetIdView>> {
    match lookup(ps, id) {
        Some((dir, yt)) => match transform_target_spec(id, yt, dir) {
            Ok((t, from_input)) => Some(t.dependencies() + from_input),
            Err(_) => None,
        },
        None => None,
    }
}

/// `b` is a resolved dependency of `a`.
pub open spec fn is_step(ps: Seq<ProjectEntry>, a: TargetIdView, b: TargetIdView) -> bool {
    resolved_dependencies(ps, a) matches Some(ds) && ds.contains(b)
}

/// `path` starts at one of `roots` and follows resolved dependencies.
pub open spec fn is_dependency_path(ps: Seq<ProjectEntry>, roots: Seq<TargetIdView>, path: Seq<TargetIdView>) -> bool {
    &&& path.len() >= 1
    &&& roots.contains(path[0])
    &&& forall|i: int| 0 <= i < path.len() - 1 ==> #[trigger] is_step(ps, path[i], path[i + 1])
}

/// Some dependency path from `roots` leads to `id`.
pub open spec fn reachable(ps: Seq<ProjectEntry>, roots: Seq<TargetIdView>, id: TargetIdView) -> bool {
    exists|path: Seq<TargetIdView>| #[trigger] is_dependency_path(ps, roots, path) && path.last() == id
}

/// The output of the build target `id`, once resolved; `None` when `id` is not a build target.
pub open spec fn build_output(ps: Seq<ProjectEntry>, id: TargetIdView) -> Option<ResourcesView> {
    match lookup(ps, id) {
        Some((dir, yaml::Target::Build { output, .. })) => Some(transform_output_spec(output.0@, dir)),
        _ => None,
    }
}

/// `t` with the outputs of the build targets `from_input` appended to its input, in order.
pub open spec fn with_dependency_outputs(t: TargetView, ps: Seq<ProjectEntry>, from_input: Seq<TargetIdView>) -> TargetView
    decreases from_input.len(),
{
    if from_input.len() == 0 {
        t
    } else {
        with_dependency_outputs(t, ps, from_input.drop_last()).with_more_input(build_output(ps, from_input.last())->0)
    }
}

/// Every target of `from_input` is a build target.
pub open spec fn all_build_targets(ps: Seq<ProjectEntry>, from_input: Seq<TargetIdView>) -> bool {
    forall|k: int| 0 <= k < from_input.len() ==> (#[trigger] build_output(ps, from_input[k])) is Some
}

/// The domain target that `id` resolves to: its transformation, depending also on
/// the targets whose output it reads, with their outputs added to its input.
pub open spec fn expected_target(ps: Seq<ProjectEntry>, id: TargetIdView) -> Option<TargetView> {
    match lookup(ps, id) {
        Some((dir, yt)) => match transform_target_spec(id, yt, dir) {
            Ok((t, from_input)) => if all_build_targets(ps, from_input) {
                Some(with_dependency_outputs(t.with_more_dependencies(from_input), ps, from_input))
            } else {
                None
            },
            Err(_) => None,
        },
        None => None,
    }
}

/// `t` is the resolution of its identifier.
pub open spec fn correctly_resolved(ps: Seq<ProjectEntry>, t: TargetView) -> bool {
    expected_target(ps, t.id()) == Some(t)
}

/// `ts` is a resolution of targets reachable from `roots`: ordered, each
/// correctly resolved and reachable.
pub open spec fn is_resolution(ps: Seq<ProjectEntry>, roots: Seq<TargetIdView>, ts: Seq<TargetView>) -> bool {
    &&& ordered_targets(ts)
    &&& forall|i: int| 0 <= i < ts.len() ==> #[trigger] correctly_resolved(ps, ts[i])
    &&& forall|i: int| 0 <= i < ts.len() ==> reachable(ps, roots, (#[trigger] ts[i]).id())
}

/// The target `id` exists and cannot be transformed, because of `f`.
pub open spec fn fails_with(ps: Seq<ProjectEntry>, id: TargetIdView, f: TransformFailure) -> bool {
    match lookup(ps, id) {
        Some((dir, yt)) => transform_target_spec(id, yt, dir) == Err::<(TargetView, Seq<TargetIdView>), TransformFailure>(f),
        None => false,
    }
}

/// What an error reports truly holds of the configuration.
pub open spec fn error_is_justified(ps: Seq<ProjectEntry>, roots: Seq<TargetIdView>, e: ConfigError) -> bool {
    match e {
        ConfigError::ProjectNotFound { project_name } => exists|id: TargetIdView| #[trigger] reachable(ps, roots, id)
            && id.project_name == Some(project_name@) && !has_project(ps, id.project_name),
        ConfigError::TargetNotFound { target_id } => reachable(ps, roots, target_id@)
            && has_project(ps, target_id@.project_name) && lookup(ps, target_id@) is None,
        ConfigError::CircularDependency { chain } => chain@.len() >= 2
            && is_dependency_path(ps, roots, chain.deep_view())
            && chain.deep_view().drop_last().contains(chain.deep_view().last())
            && chain.deep_view().drop_last().no_duplicates(),
        ConfigError::InvalidTargetName(e) => exists|id: TargetIdView| #[trigger] reachable(ps, roots, id)
            && fails_with(ps, id, TransformFailure::BadName(e.name@)),
        ConfigError::InvalidInput { input } => exists|id: TargetIdView| #[trigger] reachable(ps, roots, id)
            && fails_with(ps, id, TransformFailure::BadInput(input@)),
        ConfigError::NotBuildDependency { target_id, dependency_id } => reachable(ps, roots, target_id@)
            && (lookup(ps, target_id@) matches Some((dir, yt))
                && transform_target_spec(target_id@, yt, dir) matches Ok((t, from_input))
                && from_input.contains(dependency_id@))
            && lookup(ps, dependency_id@) is Some && build_output(ps, dependency_id@) is None,
    }
}

/// Resolved dependencies keep the project of the target unless they name another one.
pub proof fn lemma_dependency_project(ps: Seq<ProjectEntry>, id: TargetIdView, d: TargetIdView)
    requires
        is_step(ps, id, d),
    ensures
        d.project_name is Some || d.project_name == id.project_name,
{
    let (dir, yt) = lookup(ps, id)->0;
    let (t, fi) = transform_target_spec(id, yt, dir)->Ok_0;
    let ds = t.dependencies() + fi;
    let k = choose|k: int| 0 <= k < ds.len() && ds[k] == d;
    let names = yaml_dependencies(yt);
    if k < t.dependencies().len() {
        assert(ds[k] == t.dependencies()[k]);
        assert(t.dependencies() == names.map_values(|n: Seq<char>| parse_target_id(n, id.project_name)->0));
        assert(parse_target_id(names[k], id.project_name) is Some);
    } else {
        assert(ds[k] == fi[k - t.dependencies().len()]);
        match yt {
            yaml::Target::Build { input, .. } => lemma_input_dependency_project(input.0@, id, dir, k - t.dependencies().len()),
            yaml::Target::Service { input, .. } => lemma_input_dependency_project(input.0@, id, dir, k - t.dependencies().len()),
            yaml::Target::Aggregate { .. } => {},
        }
    }
}

pub proof fn lemma_input_dependency_project(input: Seq<yaml::InputResource>, id: TargetIdView, dir: Seq<char>, k: int)
    requires
        transform_input_spec(input, id, dir) matches Ok((r, fi)) && 0 <= k < fi.len(),
    ensures
        transform_input_spec(input, id, dir) matches Ok((r, fi))
            && (fi[k].project_name is Some || fi[k].project_name == id.project_name),
    decreases input.len(),
{
    let (r, fi) = transform_input_spec(input, id, dir)->Ok_0;
    let (r0, fi0) = transform_input_spec(input.drop_last(), id, dir)->Ok_0;
    if k < fi0.len() {
        lemma_input_dependency_project(input.drop_last(), id, dir, k);
        match input.last() {
            yaml::InputResource::DependencyOutput(s) => assert(fi[k] == fi0[k]),
            _ => {},
        }
    } else {
        match input.last() {
            yaml::InputResource::DependencyOutput(s) => {
                let name = dependency_output_name(s@)->0;
                assert(fi[k] == parse_target_id(name, id.project_name)->0);
            },
            _ => {},
        }
    }
}

} // verus!

verus! {

/// Adding outputs to the input of a target keeps its kind, identifier,
/// dependencies and output.
pub proof fn lemma_dependency_outputs_keep(t: TargetView, ps: Seq<ProjectEntry>, from_input: Seq<TargetIdView>)
    ensures
        with_dependency_outputs(t, ps, from_input).metadata() == t.metadata(),
        with_dependency_outputs(t, ps, from_input).output() == t.output(),
        (with_dependency_outputs(t, ps, from_input) is Build) == (t is Build),
    decreases from_input.len(),
{
    if from_input.len() > 0 {
        lemma_dependency_outputs_keep(t, ps, from_input.drop_last());
    }
}

/// A resolved target is a build target exactly when it is written as one, and
/// then its output is the resolution of the written output.
pub proof fn lemma_expected_output(ps: Seq<ProjectEntry>, id: TargetIdView)
    requires
        expected_target(ps, id) is Some,
    ensures
        lookup(ps, id) is Some,
        expected_target(ps, id)->0.id() == id,
        (expected_target(ps, id)->0 is Build) == (build_output(ps, id) is Some),
        build_output(ps, id) is Some ==> expected_target(ps, id)->0.output() == build_output(ps, id),
{
    let (dir, yt) = lookup(ps, id)->0;
    let (t, fi) = transform_target_spec(id, yt, dir)->Ok_0;
    lemma_dependency_outputs_keep(t.with_more_dependencies(fi), ps, fi);
}

/// Distinct targets that all exist are no more numerous than the listed targets.
pub proof fn lemma_chain_bounded(ps: Seq<ProjectEntry>, chain: Seq<TargetIdView>)
    requires
        chain.no_duplicates(),
        forall|k: int| 0 <= k < chain.len() ==> (#[trigger] lookup(ps, chain[k])) is Some,
    ensures
        chain.len() <= all_ids(ps).len(),
{
    let all = all_ids(ps);
    assert forall|x: TargetIdView| chain.to_set().contains(x) implies all.to_set().contains(x) by {
        let k = choose|k: int| 0 <= k < chain.len() && chain[k] == x;
        assert(lookup(ps, chain[k]) is Some);
        lemma_lookup_listed(ps, x);
    }
    chain.unique_seq_to_set();
    all.lemma_cardinality_of_set();
    vstd::set_lib::lemma_len_subset(chain.to_set(), all.to_set());
}

/// The targets of a dependency path, but its last, exist.
pub proof fn lemma_path_prefix_exists(ps: Seq<ProjectEntry>, roots: Seq<TargetIdView>, path: Seq<TargetIdView>, k: int)
    requires
        is_dependency_path(ps, roots, path),
        0 <= k < path.len() - 1,
    ensures
        lookup(ps, path[k]) is Some,
{
    assert(is_step(ps, path[k], path[k + 1]));
}

/// A dependency path extended by a resolved dependency of its last target.
pub proof fn lemma_path_extend(ps: Seq<ProjectEntry>, roots: Seq<TargetIdView>, path: Seq<TargetIdView>, next: TargetIdView)
    requires
        is_dependency_path(ps, roots, path),
        is_step(ps, path.last(), next),
    ensures
        is_dependency_path(ps, roots, path.push(next)),
{
    let q = path.push(next);
    assert forall|i: int| 0 <= i < q.len() - 1 implies #[trigger] is_step(ps, q[i], q[i + 1]) by {
        if i < path.len() - 1 {
            assert(q[i] == path[i] && q[i + 1] == path[i + 1]);
            assert(is_step(ps, path[i], path[i + 1]));
        } else {
            assert(q[i] == path.last());
        }
    }
}

} // verus!

verus! {

/// The targets of `before` keep their places in `after`.
pub open spec fn extends(before: Seq<TargetView>, after: Seq<TargetView>) -> bool {
    &&& before.len() <= after.len()
    &&& forall|i: int| 0 <= i < before.len() ==> #[trigger] after[i] == before[i]
}

/// Appending a correctly resolved, reachable target whose dependencies are all
/// listed (and which is not) keeps a resolution.
pub proof fn lemma_resolution_push(ps: Seq<ProjectEntry>, roots: Seq<TargetIdView>, ts: Seq<TargetView>, t: TargetView)
    requires
        is_resolution(ps, roots, ts),
        correctly_resolved(ps, t),
        reachable(ps, roots, t.id()),
        !listed(ts, t.id()),
        forall|d: int| 0 <= d < t.dependencies().len() ==> listed(ts, #[trigger] t.dependencies()[d]),
    ensures
        is_resolution(ps, roots, ts.push(t)),
{
    let after = ts.push(t);
    let n = ts.len() as int;
    assert forall|i: int, j: int| 0 <= i < j < after.len() implies (#[trigger] after[i]).id() != (#[trigger] after[j]).id() by {
        if j == n {
            assert(after[i] == ts[i]);
        } else {
            assert(after[i] == ts[i] && after[j] == ts[j]);
        }
    }
    assert forall|i: int| 0 <= i < after.len() implies #[trigger] dependencies_before(after, i) by {
        if i == n {
            assert forall|d: int| 0 <= d < after[i].dependencies().len() implies listed_before(after, #[trigger] after[i].dependencies()[d], i) by {
                assert(listed(ts, t.dependencies()[d]));
                let j = choose|j: int| 0 <= j < ts.len() && (#[trigger] ts[j]).id() == t.dependencies()[d];
                assert(after[j] == ts[j]);
            }
        } else {
            assert(dependencies_before(ts, i));
            assert(after[i] == ts[i]);
            assert forall|d: int| 0 <= d < after[i].dependencies().len() implies listed_before(after, #[trigger] after[i].dependencies()[d], i) by {
                assert(listed_before(ts, ts[i].dependencies()[d], i));
                let j = choose|j: int| 0 <= j < i && (#[trigger] ts[j]).id() == ts[i].dependencies()[d];
                assert(after[j] == ts[j]);
            }
        }
    }
    assert forall|i: int| 0 <= i < after.len() implies #[trigger] correctly_resolved(ps, after[i]) by {
        if i < n {
            assert(after[i] == ts[i]);
        }
    }
    assert forall|i: int| 0 <= i < after.len() implies reachable(ps, roots, (#[trigger] after[i]).id()) by {
        if i < n {
            assert(after[i] == ts[i]);
        }
    }
}

/// Adds the target `target_id`, after all of its dependencies, to `domain_targets`
/// (when not there yet). `parent_targets` are the targets being added, which
/// depend on it.
fn add_target(
    domain_targets: &mut Vec<Target>,
    config: &Config,
    target_id: &TargetId,
    parent_targets: &Vec<TargetId>,
    Ghost(roots): Ghost<Seq<TargetIdView>>,
) -> (r: Result<(), ConfigError>)
    requires
        is_resolution(config.projects@, roots, old(domain_targets).deep_view()),
        is_dependency_path(config.projects@, roots, parent_targets.deep_view().push(target_id@)),
        parent_targets.deep_view().no_duplicates(),
        target_id@.project_name is None ==> has_project(config.projects@, None),
    ensures
        extends(old(domain_targets).deep_view(), final(domain_targets).deep_view()),
        forall|p: TargetIdView| #[trigger] parent_targets.deep_view().contains(p) && listed(final(domain_targets).deep_view(), p)
            ==> listed(old(domain_targets).deep_view(), p),
        r is Ok ==> is_resolution(config.projects@, roots, final(domain_targets).deep_view())
            && listed(final(domain_targets).deep_view(), target_id@),
        r matches Err(e) ==> error_is_justified(config.projects@, roots, e),
    decreases all_ids(config.projects@).len() - parent_targets@.len(),
{
    let ghost ps = config.projects@;
    let ghost old_ts = domain_targets.deep_view();
    let ghost path = parent_targets.deep_view().push(target_id@);
    proof {
        assert(path.last() == target_id@);
        assert(reachable(ps, roots, target_id@));
    }
    if position_of(domain_targets, target_id).is_some() {
        return Ok(());
    }
    if contains_id(parent_targets, target_id) {
        let mut chain = copy_ids(parent_targets);
        let ghost c0 = chain;
        chain.push(target_id.copy());
        proof {
            assert(chain@.drop_last() =~= c0@);
            lemma_push_deep_view(c0, chain);
            assert(chain.deep_view() == path);
            assert(path.drop_last() =~= parent_targets.deep_view());
        }
        return Err(ConfigError::CircularDependency { chain });
    }
    let p = match find_project(&config.projects, &target_id.project_name) {
        Some(p) => p,
        None => {
            let name = match &target_id.project_name {
                Some(n) => owned(n.as_str()),
                None => {
                    proof {
                        assert(false);
                    }
                    owned("")
                },
            };
            return Err(ConfigError::ProjectNotFound { project_name: name });
        },
    };
    let project = &config.projects[p];
    let t = match find_target(&project.2.targets, &target_id.target_name) {
        Some(t) => t,
        None => {
            return Err(ConfigError::TargetNotFound { target_id: target_id.copy() });
        },
    };
    let ghost dir = ps[p as int].1@;
    let ghost yt = ps[p as int].2.targets@[t as int].1;
    assert(lookup(ps, target_id@) == Some((dir, yt)));
    let (mut target, dependencies_from_input) = match transform_target(target_id, &project.2.targets[t].1, project.1.as_str()) {
        Ok(x) => x,
        Err(e) => {
            proof {
                assert(fails_with(ps, target_id@, match e {
                    ConfigError::InvalidTargetName(n) => TransformFailure::BadName(n.name@),
                    ConfigError::InvalidInput { input } => TransformFailure::BadInput(input@),
                    _ => TransformFailure::BadInput(Seq::empty()),
                }));
            }
            return Err(e);
        },
    };
    let ghost t0 = target@;
    let ghost fi = dependencies_from_input.deep_view();
    target.extend_dependencies(&dependencies_from_input);
    let ghost t1 = target@;
    assert(resolved_dependencies(ps, target_id@) == Some(t1.dependencies()));
    let mut chain = copy_ids(parent_targets);
    let ghost c0 = chain;
    chain.push(target_id.copy());
    proof {
        assert(chain@.drop_last() =~= c0@);
        lemma_push_deep_view(c0, chain);
        assert(chain.deep_view() == path);
        assert(!parent_targets.deep_view().contains(target_id@));
        assert forall|i: int, j: int| 0 <= i < j < path.len() implies path[i] != path[j] by {
            if j == path.len() - 1 {
                assert(path[i] == parent_targets.deep_view()[i]);
            } else {
                assert(path[i] == parent_targets.deep_view()[i]);
                assert(path[j] == parent_targets.deep_view()[j]);
            }
        }
        assert forall|k: int| 0 <= k < path.len() implies (#[trigger] lookup(ps, path[k])) is Some by {
            if k < path.len() - 1 {
                lemma_path_prefix_exists(ps, roots, path, k);
            }
        }
        lemma_chain_bounded(ps, path);
    }
    let deps = copy_ids(target.dependencies());
    for k in 0..deps.len()
        invariant
            ps == config.projects@,
            deps.deep_view() == t1.dependencies(),
            resolved_dependencies(ps, target_id@) == Some(t1.dependencies()),
            chain.deep_view() == path,
            path == parent_targets.deep_view().push(target_id@),
            is_dependency_path(ps, roots, path),
            path.no_duplicates(),
            path.len() <= all_ids(ps).len(),
            parent_targets@.len() + 1 == path.len(),
            lookup(ps, target_id@) == Some((dir, yt)),
            is_resolution(ps, roots, domain_targets.deep_view()),
            old_ts == old(domain_targets).deep_view(),
            extends(old_ts, domain_targets.deep_view()),
            !listed(old_ts, target_id@),
            !listed(domain_targets.deep_view(), target_id@),
            forall|q: TargetIdView| #[trigger] parent_targets.deep_view().contains(q) && listed(domain_targets.deep_view(), q)
                ==> listed(old_ts, q),
            forall|m: int| 0 <= m < k ==> listed(domain_targets.deep_view(), #[trigger] deps.deep_view()[m]),
    {
        let ghost before = domain_targets.deep_view();
        proof {
            let d = deps.deep_view()[k as int];
            assert(t1.dependencies()[k as int] == d);
            assert(is_step(ps, target_id@, d));
            lemma_path_extend(ps, roots, path, d);
            lemma_dependency_project(ps, target_id@, d);
            if d.project_name is None {
                assert(has_project(ps, target_id@.project_name));
            }
        }
        let res = add_target(domain_targets, config, &deps[k], &chain, Ghost(roots));
        proof {
            let after = domain_targets.deep_view();
            assert forall|q: TargetIdView| #[trigger] parent_targets.deep_view().contains(q) && listed(after, q)
                implies listed(old_ts, q) by {
                let i = choose|i: int| 0 <= i < parent_targets.deep_view().len() && parent_targets.deep_view()[i] == q;
                assert(path[i] == q);
                assert(path.contains(q));
                assert(listed(before, q));
            }
            assert(path[path.len() - 1] == target_id@);
            assert(path.contains(target_id@));
        }
        match res {
            Ok(()) => {
                proof {
                    let after = domain_targets.deep_view();
                    assert forall|m: int| 0 <= m < k + 1 implies listed(after, #[trigger] deps.deep_view()[m]) by {
                        if m < k {
                            let j = choose|j: int| 0 <= j < before.len() && (#[trigger] before[j]).id() == deps.deep_view()[m];
                            assert(after[j] == before[j]);
                        }
                    }
                }
            },
            Err(e) => {
                return Err(e);
            },
        }
    }
    for k in 0..dependencies_from_input.len()
        invariant
            ps == config.projects@,
            fi == dependencies_from_input.deep_view(),
            deps.deep_view() == t1.dependencies(),
            t1 == t0.with_more_dependencies(fi),
            target@ == with_dependency_outputs(t1, ps, fi.take(k as int)),
            all_build_targets(ps, fi.take(k as int)),
            is_resolution(ps, roots, domain_targets.deep_view()),
            forall|m: int| 0 <= m < deps.deep_view().len() ==> listed(domain_targets.deep_view(), #[trigger] deps.deep_view()[m]),
            lookup(ps, target_id@) == Some((dir, yt)),
            transform_target_spec(target_id@, yt, dir) == Ok::<(TargetView, Seq<TargetIdView>), TransformFailure>((t0, fi)),
            reachable(ps, roots, target_id@),
            old_ts == old(domain_targets).deep_view(),
            extends(old_ts, domain_targets.deep_view()),
            !listed(domain_targets.deep_view(), target_id@),
            path == parent_targets.deep_view().push(target_id@),
            path.no_duplicates(),
            forall|q: TargetIdView| #[trigger] parent_targets.deep_view().contains(q) && listed(domain_targets.deep_view(), q)
                ==> listed(old_ts, q),
    {
        let ghost ts = domain_targets.deep_view();
        proof {
            assert(fi.take(k + 1).drop_last() =~= fi.take(k as int));
            assert(fi.take(k + 1).last() == fi[k as int]);
            assert(t1.dependencies() == t0.dependencies() + fi);
            assert(deps.deep_view()[t0.dependencies().len() + k] == fi[k as int]);
            assert(listed(ts, fi[k as int]));
        }
        let j = match position_of(domain_targets, &dependencies_from_input[k]) {
            Some(j) => j,
            None => {
                proof {
                    assert(false);
                }
                0
            },
        };
        proof {
            assert(correctly_resolved(ps, ts[j as int]));
            lemma_expected_output(ps, fi[k as int]);
        }
        match &domain_targets[j] {
            Target::Build(b) => {
                target.extend_input(&b.output);
                proof {
                    assert(build_output(ps, fi[k as int]) == Some(b.output@));
                    assert forall|m: int| 0 <= m < k + 1 implies (#[trigger] build_output(ps, fi.take(k + 1)[m])) is Some by {
                        if m < k {
                            assert(fi.take(k + 1)[m] == fi.take(k as int)[m]);
                        }
                    }
                }
            },
            _ => {
                proof {
                    assert(fi.contains(fi[k as int]));
                }
                return Err(ConfigError::NotBuildDependency {
                    target_id: target_id.copy(),
                    dependency_id: dependencies_from_input[k].copy(),
                });
            },
        }
    }
    let ghost ts = domain_targets.deep_view();
    let ghost before_vec = *domain_targets;
    proof {
        assert(fi.take(fi.len() as int) =~= fi);
        assert(expected_target(ps, target_id@) == Some(target@));
        lemma_expected_output(ps, target_id@);
    }
    domain_targets.push(target);
    proof {
        assert(domain_targets@.drop_last() =~= before_vec@);
        lemma_push_deep_view(before_vec, *domain_targets);
        let after = domain_targets.deep_view();
        let n = ts.len() as int;
        assert(after == ts.push(after[n]));
        assert(after[n].id() == target_id@);
        lemma_dependency_outputs_keep(t1, ps, fi);
        assert(after[n].dependencies() == deps.deep_view());
        assert forall|d: int| 0 <= d < after[n].dependencies().len() implies listed(ts, #[trigger] after[n].dependencies()[d]) by {
            assert(listed(ts, deps.deep_view()[d]));
        }
        lemma_resolution_push(ps, roots, ts, after[n]);
        assert(listed(after, target_id@));
        assert forall|q: TargetIdView| #[trigger] parent_targets.deep_view().contains(q) && listed(after, q)
            implies listed(old_ts, q) by {
            let j = choose|j: int| 0 <= j < after.len() && (#[trigger] after[j]).id() == q;
            if j == n {
                let i = choose|i: int| 0 <= i < parent_targets.deep_view().len() && parent_targets.deep_view()[i] == q;
                assert(path[i] == q);
                assert(path[path.len() - 1] == target_id@);
            } else {
                assert(after[j] == ts[j]);
                assert(listed(ts, q));
            }
        }
        assert forall|i: int| 0 <= i < old_ts.len() implies #[trigger] after[i] == old_ts[i] by {
            assert(ts[i] == old_ts[i]);
        }
    }
    Ok(())
}

} // verus!

verus! {

impl Config {
    /// Resolves the targets `root_target_ids` and, transitively, all the targets
    /// they depend on (directly, or by reading their output). On success, each
    /// target comes after its dependencies; on failure, the error names what is
    /// wrong in the configuration.
    pub fn try_into_domain_targets(self, root_target_ids: &Vec<TargetId>) -> (r: Result<Vec<Target>, ConfigError>)
        requires
            forall|k: int| 0 <= k < root_target_ids@.len() ==> (#[trigger] root_target_ids@[k])@.project_name is None
                ==> has_project(self.projects@, None),
        ensures
            match r {
                Ok(ts) => is_resolution(self.projects@, root_target_ids.deep_view(), ts.deep_view())
                    && forall|k: int| 0 <= k < root_target_ids@.len()
                        ==> listed(ts.deep_view(), #[trigger] root_target_ids.deep_view()[k]),
                Err(e) => error_is_justified(self.projects@, root_target_ids.deep_view(), e),
            },
    {
        let ghost roots = root_target_ids.deep_view();
        let ghost ps = self.projects@;
        let mut domain_targets: Vec<Target> = Vec::new();
        let parents: Vec<TargetId> = Vec::new();
        proof {
            assert(domain_targets.deep_view() =~= Seq::<TargetView>::empty());
            assert(parents.deep_view() =~= Seq::<TargetIdView>::empty());
        }
        for k in 0..root_target_ids.len()
            invariant
                roots == root_target_ids.deep_view(),
                ps == self.projects@,
                parents.deep_view() == Seq::<TargetIdView>::empty(),
                forall|k: int| 0 <= k < root_target_ids@.len() ==> (#[trigger] root_target_ids@[k])@.project_name is None
                    ==> has_project(self.projects@, None),
                is_resolution(ps, roots, domain_targets.deep_view()),
                forall|m: int| 0 <= m < k ==> listed(domain_targets.deep_view(), #[trigger] roots[m]),
        {
            let ghost before = domain_targets.deep_view();
            proof {
                let path = parents.deep_view().push(roots[k as int]);
                assert(path =~= seq![roots[k as int]]);
                assert(roots.contains(path[0]));
                assert(is_dependency_path(ps, roots, path));
                assert(root_target_ids@[k as int]@ == roots[k as int]);
            }
            match add_target(&mut domain_targets, &self, &root_target_ids[k], &parents, Ghost(roots)) {
                Ok(()) => {
                    proof {
                        let after = domain_targets.deep_view();
                        assert forall|m: int| 0 <= m < k + 1 implies listed(after, #[trigger] roots[m]) by {
                            if m < k {
                                let j = choose|j: int| 0 <= j < before.len() && (#[trigger] before[j]).id() == roots[m];
                                assert(after[j] == before[j]);
                            }
                        }
                    }
                },
                Err(e) => {
                    return Err(e);
                },
            }
        }
        Ok(domain_targets)
    }
}

// ----------------------------------------------------------------------------
// Laws
// ----------------------------------------------------------------------------

/// In a resolution, a resolved dependency of a listed target is listed before it.
pub proof fn lemma_step_goes_earlier(ps: Seq<ProjectEntry>, roots: Seq<TargetIdView>, ts: Seq<TargetView>, i: int, b: TargetIdView)
    requires
        is_resolution(ps, roots, ts),
        0 <= i < ts.len(),
        is_step(ps, ts[i].id(), b),
    ensures
        listed_before(ts, b, i),
{
    assert(correctly_resolved(ps, ts[i]));
    let id = ts[i].id();
    let (dir, yt) = lookup(ps, id)->0;
    let (t, fi) = transform_target_spec(id, yt, dir)->Ok_0;
    lemma_dependency_outputs_keep(t.with_more_dependencies(fi), ps, fi);
    assert(ts[i].dependencies() == t.dependencies() + fi);
    let ds = resolved_dependencies(ps, id)->0;
    let d = choose|d: int| 0 <= d < ds.len() && ds[d] == b;
    assert(dependencies_before(ts, i));
    assert(listed_before(ts, ts[i].dependencies()[d], i));
}

/// Law: the resolved targets are the requested ones and all of their
/// dependencies, recursively: every target on a dependency path from a root is
/// listed.
pub proof fn law_resolution_is_closed(ps: Seq<ProjectEntry>, roots: Seq<TargetIdView>, ts: Seq<TargetView>, path: Seq<TargetIdView>)
    requires
        is_resolution(ps, roots, ts),
        forall|k: int| 0 <= k < roots.len() ==> listed(ts, #[trigger] roots[k]),
        is_dependency_path(ps, roots, path),
    ensures
        forall|k: int| 0 <= k < path.len() ==> listed(ts, #[trigger] path[k]),
    decreases path.len(),
{
    if path.len() == 1 {
        let r = choose|r: int| 0 <= r < roots.len() && roots[r] == path[0];
        assert(listed(ts, roots[r]));
    } else {
        let pre = path.drop_last();
        assert forall|i: int| 0 <= i < pre.len() - 1 implies #[trigger] is_step(ps, pre[i], pre[i + 1]) by {
            assert(is_step(ps, path[i], path[i + 1]));
        }
        law_resolution_is_closed(ps, roots, ts, pre);
        let n = path.len() - 1;
        assert(listed(ts, pre[n - 1]));
        let j = choose|j: int| 0 <= j < ts.len() && (#[trigger] ts[j]).id() == pre[n - 1];
        let m = n - 1;
        assert(is_step(ps, path[m], path[m + 1]));
        assert(pre[m] == path[m]);
        assert(path[m + 1] == path[n]);
        lemma_step_goes_earlier(ps, roots, ts, j, path[n]);
        assert forall|k: int| 0 <= k < path.len() implies listed(ts, #[trigger] path[k]) by {
            if k < n {
                assert(path[k] == pre[k]);
            }
        }
    }
}

/// Position of `id` in the ordered resolution `ts`.
pub open spec fn position(ts: Seq<TargetView>, id: TargetIdView) -> int {
    choose|j: int| 0 <= j < ts.len() && (#[trigger] ts[j]).id() == id
}

/// Along a dependency path through a closed resolution, positions strictly decrease.
proof fn lemma_path_positions_decrease(ps: Seq<ProjectEntry>, roots: Seq<TargetIdView>, ts: Seq<TargetView>, path: Seq<TargetIdView>, i: int, j: int)
    requires
        is_resolution(ps, roots, ts),
        forall|k: int| 0 <= k < path.len() ==> listed(ts, #[trigger] path[k]),
        is_dependency_path(ps, roots, path),
        0 <= i < j < path.len(),
    ensures
        position(ts, path[j]) < position(ts, path[i]),
    decreases j - i,
{
    let pi = position(ts, path[i]);
    assert(listed(ts, path[i]));
    assert(is_step(ps, path[i], path[i + 1]));
    lemma_step_goes_earlier(ps, roots, ts, pi, path[i + 1]);
    let q = choose|q: int| 0 <= q < pi && (#[trigger] ts[q]).id() == path[i + 1];
    assert(listed(ts, path[i + 1]));
    let pn = position(ts, path[i + 1]);
    if pn != q {
        assert(ts[pn].id() == ts[q].id());
    }
    if i + 1 < j {
        lemma_path_positions_decrease(ps, roots, ts, path, i + 1, j);
    }
}

/// Law: when the targets resolve, the configuration has no circular dependency
/// reachable from the roots: no dependency path visits a target twice.
pub proof fn law_resolution_is_acyclic(ps: Seq<ProjectEntry>, roots: Seq<TargetIdView>, ts: Seq<TargetView>, path: Seq<TargetIdView>)
    requires
        is_resolution(ps, roots, ts),
        forall|k: int| 0 <= k < roots.len() ==> listed(ts, #[trigger] roots[k]),
        is_dependency_path(ps, roots, path),
    ensures
        path.no_duplicates(),
{
    law_resolution_is_closed(ps, roots, ts, path);
    assert forall|i: int, j: int| 0 <= i < path.len() && 0 <= j < path.len() && i != j implies path[i] != path[j] by {
        if i < j {
            lemma_path_positions_decrease(ps, roots, ts, path, i, j);
        } else {
            lemma_path_positions_decrease(ps, roots, ts, path, j, i);
        }
    }
}


/// The written output `o` is a files resource, and `f` is it resolved against
/// the project directory `dir`: each path joined onto `dir`, in order, with no
/// extension filter.
pub open spec fn resolved_files_output(o: yaml::OutputResource, dir: Seq<char>, f: FilesResourceView) -> bool {
    &&& o matches yaml::OutputResource::Files { paths }
    &&& f.extensions is None
    &&& f.paths.len() == paths@.len()
    &&& forall|j: int| 0 <= j < f.paths.len() ==> #[trigger] f.paths[j] == joined_path(dir, paths@[j]@)
}

/// `f` is one of the written outputs `output` that is a files resource,
/// resolved against `dir`.
pub open spec fn resolves_written_files(output: Seq<yaml::OutputResource>, dir: Seq<char>, f: FilesResourceView) -> bool {
    exists|k: int| 0 <= k < output.len() && #[trigger] resolved_files_output(output[k], dir, f)
}

/// The written output `o`, a files resource, is resolved as one of `files`.
pub open spec fn resolved_among(o: yaml::OutputResource, dir: Seq<char>, files: Seq<FilesResourceView>) -> bool {
    exists|i: int| 0 <= i < files.len() && #[trigger] resolved_files_output(o, dir, files[i])
}

/// Law: the output resources of a target are resolved against its project
/// directory. Each files resource of the result is one that is written, with
/// every path joined onto the directory; each written files resource gives one;
/// and every command runs in the directory.
pub proof fn law_output_paths_are_resolved_against_the_project_dir(output: Seq<yaml::OutputResource>, dir: Seq<char>)
    ensures
        forall|i: int| 0 <= i < transform_output_spec(output, dir).files.len()
            ==> resolves_written_files(output, dir, #[trigger] transform_output_spec(output, dir).files[i]),
        forall|k: int| 0 <= k < output.len() && (#[trigger] output[k]) is Files
            ==> resolved_among(output[k], dir, transform_output_spec(output, dir).files),
        forall|i: int| 0 <= i < transform_output_spec(output, dir).cmds.len()
            ==> (#[trigger] transform_output_spec(output, dir).cmds[i]).dir == dir,
    decreases output.len(),
{
    if output.len() > 0 {
        let front = output.drop_last();
        law_output_paths_are_resolved_against_the_project_dir(front, dir);
        let acc = transform_output_spec(front, dir);
        let r = transform_output_spec(output, dir);
        let n = output.len() - 1;
        assert forall|i: int| 0 <= i < r.files.len() implies resolves_written_files(output, dir, #[trigger] r.files[i]) by {
            if i < acc.files.len() {
                assert(r.files[i] == acc.files[i]);
                assert(resolves_written_files(front, dir, acc.files[i]));
                let k = choose|k: int| 0 <= k < front.len() && #[trigger] resolved_files_output(front[k], dir, acc.files[i]);
                assert(front[k] == output[k]);
                assert(resolved_files_output(output[k], dir, r.files[i]));
            } else {
                assert(resolved_files_output(output[n], dir, r.files[i]));
            }
        }
        assert forall|k: int| 0 <= k < output.len() && (#[trigger] output[k]) is Files
            implies resolved_among(output[k], dir, r.files) by {
            if k < n {
                assert(front[k] == output[k]);
                assert(resolved_among(front[k], dir, acc.files));
                let i = choose|i: int| 0 <= i < acc.files.len() && #[trigger] resolved_files_output(front[k], dir, acc.files[i]);
                assert(r.files[i] == acc.files[i]);
                assert(resolved_files_output(output[k], dir, r.files[i]));
            } else {
                let i = acc.files.len() as int;
                assert(resolved_files_output(output[k], dir, r.files[i]));
            }
        }
        assert forall|i: int| 0 <= i < r.cmds.len() implies (#[trigger] r.cmds[i]).dir == dir by {
            if i < acc.cmds.len() {
                assert(r.cmds[i] == acc.cmds[i]);
            }
        }
    }
}

/// Law: the command line accepts every target by its canonical name, and, when
/// the root project has a name, each target of the root project by its plain
/// name too.
pub proof fn law_available_target_names(ps: Seq<ProjectEntry>, root: Option<Seq<char>>, id: TargetIdView)
    requires
        lookup(ps, id) is Some,
    ensures
        available_target_names(ps, root).contains(canonical_name(id)),
        root is Some && id.project_name == root ==> available_target_names(ps, root).contains(id.target_name),
{
    let names = available_target_names(ps, root);
    let ids = all_ids(ps);
    lemma_lookup_listed(ps, id);
    let k = choose|k: int| 0 <= k < ids.len() && ids[k] == id;
    assert(names[k] == canonical_name(id));
    if root is Some && id.project_name == root {
        let p = project_index(ps, root)->0;
        let t = target_index(ps[p].2.targets@, id.target_name)->0;
        assert(is_first_target(ps[p].2.targets@, id.target_name, t));
        assert(names[ids.len() + t] == ps[p].2.targets@[t].0@);
    }
}
} // verus!
