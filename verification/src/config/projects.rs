//! Projects described by `zinoma.yml` files whose targets are named in a single
//! namespace: a project lists its targets and the directories of the projects
//! it imports.

use super::yaml::is_valid_target_name;
use crate::paths::{join_paths, joined_paths};
use crate::text::{is_ident, lemma_push_deep_view, owned, str_eq};
use crate::domain::copy_strings;
use crate::target::Target;
use super::conversion::{EntryView, MissingTarget, RawTarget, TargetEntry, all_entries, entries_graph, requested_roots, flatten_projects,
    listed_name, missing_is_justified, numbered_resolution, resolve_targets};
use super::single_file::{ValidationError, named_graph, validate_target, validation_error_is_justified};
use vstd::prelude::*;

verus! {

/// A target as a project file describes it.
#[derive(Debug)]
pub struct ProjectTarget {
    pub dependencies: Vec<String>,
    pub input_paths: Vec<String>,
    pub output_paths: Vec<String>,
    pub build: Option<String>,
    pub service: Option<String>,
}

pub struct ProjectTargetView {
    pub dependencies: Seq<Seq<char>>,
    pub input_paths: Seq<Seq<char>>,
    pub output_paths: Seq<Seq<char>>,
    pub build: Option<Seq<char>>,
    pub service: Option<Seq<char>>,
}

impl View for ProjectTarget {
    type V = ProjectTargetView;

    open spec fn view(&self) -> ProjectTargetView {
        ProjectTargetView {
            dependencies: self.dependencies.deep_view(),
            input_paths: self.input_paths.deep_view(),
            output_paths: self.output_paths.deep_view(),
            build: self.build.deep_view(),
            service: self.service.deep_view(),
        }
    }
}

impl DeepView for ProjectTarget {
    type V = ProjectTargetView;

    open spec fn deep_view(&self) -> ProjectTargetView {
        self@
    }
}

/// A project: the directories it imports, relative to its own, and its targets by name.
#[derive(Debug)]
pub struct Project {
    pub imports: Vec<String>,
    pub targets: Vec<(String, ProjectTarget)>,
}

pub struct ProjectView {
    pub imports: Seq<Seq<char>>,
    pub targets: Seq<(Seq<char>, ProjectTargetView)>,
}

impl View for Project {
    type V = ProjectView;

    open spec fn view(&self) -> ProjectView {
        ProjectView { imports: self.imports.deep_view(), targets: self.targets.deep_view() }
    }
}

impl DeepView for Project {
    type V = ProjectView;

    open spec fn deep_view(&self) -> ProjectView {
        self@
    }
}

/// The projects of a build flow, by directory.
#[derive(Debug)]
pub struct Projects(pub Vec<(String, Project)>);

impl Projects {
    pub open spec fn view(&self) -> Seq<(Seq<char>, ProjectView)> {
        self.0.deep_view()
    }

    pub fn new() -> (r: Projects)
        ensures
            r.view().len() == 0,
    {
        let r = Projects(Vec::new());
        assert(r.view() =~= Seq::<(Seq<char>, ProjectView)>::empty());
        r
    }

    /// Whether the project in `dir` is loaded already.
    pub fn contains(&self, dir: &str) -> (b: bool)
        ensures
            b == exists|i: int| 0 <= i < self.view().len() && (#[trigger] self.view()[i]).0 == dir@,
    {
        for i in 0..self.0.len()
            invariant
                forall|j: int| 0 <= j < i ==> (#[trigger] self.view()[j]).0 != dir@,
        {
            if str_eq(self.0[i].0.as_str(), dir) {
                assert(self.view()[i as int].0 == dir@);
                return true;
            }
        }
        false
    }

    /// Adds the project in `dir`.
    pub fn add(&mut self, dir: String, project: Project)
        ensures
            final(self).view() == old(self).view().push((dir@, project@)),
    {
        let ghost v0 = self.0;
        self.0.push((dir, project));
        proof {
            assert(self.0@.drop_last() =~= v0@);
            lemma_push_deep_view(v0, self.0);
        }
    }

    /// The directories of the projects, in order.
    pub fn get_project_dirs(&self) -> (r: Vec<String>)
        ensures
            r.deep_view() == self.view().map_values(|p: (Seq<char>, ProjectView)| p.0),
    {
        let mut r: Vec<String> = Vec::new();
        for i in 0..self.0.len()
            invariant
                r.deep_view() == self.view().map_values(|p: (Seq<char>, ProjectView)| p.0).take(i as int),
        {
            let ghost r0 = r;
            r.push(owned(self.0[i].0.as_str()));
            proof {
                assert(r@.drop_last() =~= r0@);
                lemma_push_deep_view(r0, r);
                assert(r.deep_view() =~= self.view().map_values(|p: (Seq<char>, ProjectView)| p.0).take(i + 1));
            }
        }
        assert(self.view().map_values(|p: (Seq<char>, ProjectView)| p.0).take(self.0.len() as int)
            =~= self.view().map_values(|p: (Seq<char>, ProjectView)| p.0));
        r
    }
}

/// The directories that the project in `project_dir` imports.
pub fn import_paths(project_dir: &str, project: &Project) -> (r: Vec<String>)
    ensures
        r.deep_view() == joined_paths(project_dir@, project@.imports),
{
    join_paths(project_dir, &project.imports)
}

/// A target of a project has a name that is not an identifier.
#[derive(Debug, Clone, PartialEq, Eq)]
pub struct InvalidTargetName {
    pub name: String,
}

impl InvalidTargetName {
    pub fn message(&self) -> (r: String)
        ensures
            r@ == self.name@ + " is not a valid target name"@,
    {
        let mut r = owned(self.name.as_str());
        r.append(" is not a valid target name");
        proof {
            reveal_strlit(" is not a valid target name");
        }
        r
    }
}

/// A project is accepted when each of its targets is named by an identifier;
/// else the first that is not is reported.
pub fn check_target_names(project: &Project) -> (r: Result<(), InvalidTargetName>)
    ensures
        match r {
            Ok(()) => forall|i: int| 0 <= i < project@.targets.len() ==> is_ident(#[trigger] project@.targets[i].0),
            Err(e) => exists|i: int| 0 <= i < project@.targets.len() && (#[trigger] project@.targets[i]).0 == e.name@
                && !is_ident(e.name@) && forall|j: int| 0 <= j < i ==> is_ident(#[trigger] project@.targets[j].0),
        },
{
    for i in 0..project.targets.len()
        invariant
            forall|j: int| 0 <= j < i ==> is_ident(#[trigger] project@.targets[j].0),
    {
        if !is_valid_target_name(project.targets[i].0.as_str()) {
            let e = InvalidTargetName { name: owned(project.targets[i].0.as_str()) };
            assert(project@.targets[i as int].0 == e.name@);
            return Err(e);
        }
    }
    Ok(())
}

} // verus!

verus! {

/// The targets of all the projects of a build flow, by name, with the
/// directory of their project.
#[derive(Debug)]
pub struct Targets(pub Vec<TargetEntry>);

impl Targets {
    pub open spec fn view(&self) -> Seq<EntryView> {
        self.0.deep_view()
    }

    /// The targets of `projects`, once each is validated: every target
    /// reachable from one exists, and none depends on itself.
    pub fn try_from(projects: Projects) -> (r: Result<Targets, ValidationError>)
        ensures
            match r {
                Ok(ts) => ts.view() == all_entries(projects.view())
                    && forall|i: int| 0 <= i < ts.view().len() ==> entries_graph(ts.view()).valid_from(
                        Seq::empty(), (#[trigger] ts.view()[i]).name),
                Err(e) => exists|i: int| 0 <= i < all_entries(projects.view()).len()
                    && validation_error_is_justified(entries_graph(all_entries(projects.view())), Seq::empty(),
                        (#[trigger] all_entries(projects.view())[i]).name, e),
            },
    {
        let entries = flatten_projects(&projects);
        let ghost es = entries.deep_view();
        let mut named: Vec<(String, RawTarget)> = Vec::new();
        for i in 0..entries.len()
            invariant
                es == entries.deep_view(),
                named@.len() == i,
                forall|j: int| 0 <= j < i ==> (#[trigger] named.deep_view()[j]).0 == es[j].name
                    && named.deep_view()[j].1 == es[j].target,
        {
            let ghost n0 = named;
            named.push((owned(entries[i].name.as_str()), entries[i].target.copy()));
            proof {
                assert(named@.drop_last() =~= n0@);
                lemma_push_deep_view(n0, named);
                assert forall|j: int| 0 <= j < i + 1 implies (#[trigger] named.deep_view()[j]).0 == es[j].name
                    && named.deep_view()[j].1 == es[j].target by {
                    if j < i {
                        assert(named.deep_view()[j] == n0.deep_view()[j]);
                    }
                }
            }
        }
        proof {
            assert(named_graph(named.deep_view()).names =~= entries_graph(es).names);
            assert(named_graph(named.deep_view()).deps =~= entries_graph(es).deps);
        }
        let parents: Vec<String> = Vec::new();
        assert(parents.deep_view() =~= Seq::<Seq<char>>::empty());
        for i in 0..entries.len()
            invariant
                es == entries.deep_view(),
                es == all_entries(projects.view()),
                named_graph(named.deep_view()) == entries_graph(es),
                parents.deep_view() == Seq::<Seq<char>>::empty(),
                forall|j: int| 0 <= j < i ==> entries_graph(es).valid_from(Seq::empty(), (#[trigger] es[j]).name),
        {
            assert(es[i as int].name == entries@[i as int].name@);
            match validate_target(entries[i].name.as_str(), &parents, &named) {
                Ok(()) => {},
                Err(e) => {
                    proof {
                        assert(validation_error_is_justified(entries_graph(es), Seq::empty(), es[i as int].name, e));
                        assert(es == all_entries(projects.view()));
                    }
                    return Err(e);
                },
            }
        }
        Ok(Targets(entries))
    }

    /// The names of the targets, in order.
    pub fn get_target_names(&self) -> (r: Vec<String>)
        ensures
            r.deep_view() == entries_graph(self.view()).names,
    {
        let mut r: Vec<String> = Vec::new();
        for i in 0..self.0.len()
            invariant
                r.deep_view() == entries_graph(self.view()).names.take(i as int),
        {
            let ghost r0 = r;
            r.push(owned(self.0[i].name.as_str()));
            proof {
                assert(r@.drop_last() =~= r0@);
                lemma_push_deep_view(r0, r);
                assert(r.deep_view() =~= entries_graph(self.view()).names.take(i + 1));
            }
        }
        assert(entries_graph(self.view()).names.take(self.0.len() as int) =~= entries_graph(self.view()).names);
        r
    }

    /// The requested targets (all of them when none is named), numbered, each
    /// after the targets it depends on.
    pub fn try_into_domain_targets(self, requested_targets: Option<Vec<String>>) -> (r: Result<Vec<Target>, MissingTarget>)
        ensures
            match r {
                Ok(ts) => numbered_resolution(self.view(), requested_roots(self.view(), requested_targets.deep_view()),
                        ts.deep_view())
                    && forall|k: int| 0 <= k < requested_roots(self.view(), requested_targets.deep_view()).len()
                        ==> listed_name(ts.deep_view(), #[trigger] requested_roots(self.view(),
                            requested_targets.deep_view())[k]),
                Err(e) => missing_is_justified(self.view(), requested_roots(self.view(), requested_targets.deep_view()),
                    e.name@),
            },
    {
        let requested = match requested_targets {
            Some(names) => names,
            None => self.get_target_names(),
        };
        resolve_targets(&self.0, &requested)
    }
}

} // verus!
