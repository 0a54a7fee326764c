//! The schema of a `zinoma.yml` file, and the rules that a loaded project must follow.

use crate::text::{is_ident, chars_of, is_ident_range, owned};
use vstd::prelude::*;
use vstd::string::*;

verus! {

/// The dependencies of a target, as written: canonical target names.
#[derive(Debug)]
pub struct Dependencies(pub Vec<String>);

/// The input resources of a target, as written.
#[derive(Debug)]
pub struct InputResources(pub Vec<InputResource>);

/// The output resources of a target, as written.
#[derive(Debug)]
pub struct OutputResources(pub Vec<OutputResource>);

#[derive(Debug)]
pub enum InputResource {
    /// Files and directories (relative to the project directory), optionally
    /// restricted to some file extensions.
    Files { paths: Vec<String>, extensions: Option<Vec<String>> },
    /// The standard output of a shell script.
    CmdStdout { cmd_stdout: String },
    /// The output resources of another target: `<target_name>.output` or
    /// `<project_name>::<target_name>.output`.
    DependencyOutput(String),
}

#[derive(Debug)]
pub enum OutputResource {
    Files { paths: Vec<String> },
    CmdStdout { cmd_stdout: String },
}

/// A target, as written in `zinoma.yml`.
#[derive(Debug)]
pub enum Target {
    Build { dependencies: Dependencies, build: String, input: InputResources, output: OutputResources },
    Service { dependencies: Dependencies, service: String, input: InputResources },
    Aggregate { dependencies: Dependencies },
}

/// A project: the content of one `zinoma.yml` file.
#[derive(Debug)]
pub struct Project {
    /// The targets, by name. A name occurs at most once.
    pub targets: Vec<(String, Target)>,
    pub name: Option<String>,
    /// The imported projects: name and path (relative to this project's directory).
    pub imports: Vec<(String, String)>,
}

/// The projects of a build flow, by canonical directory.
pub struct Config {
    pub root_project_dir: String,
    pub projects: Vec<(String, Project)>,
}

impl Config {
    /// The directories of all the projects.
    pub fn get_project_dirs(&self) -> (r: Vec<String>)
        ensures
            r@.len() == self.projects@.len(),
            forall|i: int| 0 <= i < r@.len() ==> (#[trigger] r@[i])@ == self.projects@[i].0@,
    {
        let mut r: Vec<String> = Vec::new();
        for i in 0..self.projects.len()
            invariant
                r@.len() == i,
                forall|k: int| 0 <= k < i ==> (#[trigger] r@[k])@ == self.projects@[k].0@,
        {
            r.push(owned(self.projects[i].0.as_str()));
        }
        r
    }
}

/// A target name: a word character followed by word characters and hyphens.
pub fn is_valid_target_name(target_name: &str) -> (b: bool)
    ensures
        b == is_ident(target_name@),
{
    let v = chars_of(target_name);
    let r = is_ident_range(&v, 0, v.len());
    assert(v@.subrange(0, v@.len() as int) =~= v@);
    r
}

/// A project name follows the same rule as a target name.
pub fn is_valid_project_name(project_name: &str) -> (b: bool)
    ensures
        b == is_ident(project_name@),
{
    let v = chars_of(project_name);
    let r = is_ident_range(&v, 0, v.len());
    assert(v@.subrange(0, v@.len() as int) =~= v@);
    r
}

/// Why a loaded project is rejected.
#[derive(Debug)]
pub enum ProjectError {
    InvalidProjectName { name: String },
    InvalidTargetName { name: String },
}

impl ProjectError {
    pub fn message(&self) -> (r: String)
        ensures
            r@ == match self {
                ProjectError::InvalidProjectName { name } => name@ + " is not a valid project name"@,
                ProjectError::InvalidTargetName { name } => name@ + " is not a valid target name"@,
            },
    {
        match self {
            ProjectError::InvalidProjectName { name } => {
                let mut r = owned(name.as_str());
                r.append(" is not a valid project name");
                r
            },
            ProjectError::InvalidTargetName { name } => {
                let mut r = owned(name.as_str());
                r.append(" is not a valid target name");
                r
            },
        }
    }
}

/// Checks the names of a freshly loaded project: its own name first, then the
/// names of its targets, in order.
pub fn validate_project(project: &Project) -> (r: Result<(), ProjectError>)
    ensures
        r matches Err(ProjectError::InvalidProjectName { name }) <==> (project.name matches Some(n) && !is_ident(n@)),
        r matches Err(ProjectError::InvalidProjectName { name }) ==> project.name->0@ == name@,
        r matches Err(ProjectError::InvalidTargetName { name }) ==> exists|i: int| 0 <= i < project.targets@.len()
            && !is_ident(#[trigger] project.targets@[i].0@) && name@ == project.targets@[i].0@
            && forall|k: int| 0 <= k < i ==> is_ident(#[trigger] project.targets@[k].0@),
        r is Ok <==> ((project.name matches Some(n) ==> is_ident(n@))
            && forall|i: int| 0 <= i < project.targets@.len() ==> is_ident(#[trigger] project.targets@[i].0@)),
{
    if let Some(name) = &project.name {
        if !is_valid_project_name(name.as_str()) {
            return Err(ProjectError::InvalidProjectName { name: owned(name.as_str()) });
        }
    }
    for i in 0..project.targets.len()
        invariant
            project.name matches Some(n) ==> is_ident(n@),
            forall|k: int| 0 <= k < i ==> is_ident(#[trigger] project.targets@[k].0@),
    {
        if !is_valid_target_name(project.targets[i].0.as_str()) {
            return Err(ProjectError::InvalidTargetName { name: owned(project.targets[i].0.as_str()) });
        }
    }
    Ok(())
}

/// Why an imported project is rejected.
#[derive(Debug)]
pub enum ImportError {
    /// The imported project has no name.
    NoName { import_name: String },
    /// The imported project is named otherwise than its import.
    NameMismatch { import_name: String, project_name: String },
}

impl ImportError {
    /// The message that reports this error: its context, then its cause.
    pub fn message(&self) -> (r: String)
        ensures
            r@ == match self {
                ImportError::NoName { import_name } =>
                    "Failed to import "@ + import_name@ + ": Project cannot be imported as it has no name"@,
                ImportError::NameMismatch { import_name, project_name } =>
                    "Failed to import "@ + import_name@ + ": The project should be imported with name "@ + project_name@,
            },
    {
        match self {
            ImportError::NoName { import_name } => {
                let mut r = owned("Failed to import ");
                r.append(import_name.as_str());
                r.append(": Project cannot be imported as it has no name");
                r
            },
            ImportError::NameMismatch { import_name, project_name } => {
                let mut r = owned("Failed to import ");
                r.append(import_name.as_str());
                r.append(": The project should be imported with name ");
                r.append(project_name.as_str());
                r
            },
        }
    }
}

/// Checks that a project imported under `import_name` has that name.
pub fn check_import(import_name: &str, project_name: &Option<String>) -> (r: Result<(), ImportError>)
    ensures
        match project_name {
            None => r matches Err(ImportError::NoName { import_name: n }) && n@ == import_name@,
            Some(p) => if p@ == import_name@ {
                r is Ok
            } else {
                r matches Err(ImportError::NameMismatch { import_name: n, project_name: q })
                    && n@ == import_name@ && q@ == p@
            },
        },
{
    match project_name {
        None => Err(ImportError::NoName { import_name: owned(import_name) }),
        Some(p) => {
            let i = owned(import_name);
            if *p == i {
                Ok(())
            } else {
                Err(ImportError::NameMismatch { import_name: i, project_name: owned(p.as_str()) })
            }
        },
    }
}

/// The message that reports a directory that cannot be canonicalized.
pub fn invalid_dir_message(dir: &str, not_found: bool) -> (r: String)
    ensures
        r@ == if not_found {
            "Directory "@ + dir@ + " does not exist"@
        } else {
            "Invalid directory: "@ + dir@
        },
{
    if not_found {
        let mut r = owned("Directory ");
        r.append(dir);
        r.append(" does not exist");
        r
    } else {
        let mut r = owned("Invalid directory: ");
        r.append(dir);
        r
    }
}

} // verus!
