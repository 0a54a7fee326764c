//! The targets of a build flow, once resolved from the configuration.

use crate::paths::{file_name, path_file_name};
use crate::text::{ends_with, str_ends_with, chars_of, owned};
use vstd::prelude::*;
use vstd::string::*;

verus! {

// ----------------------------------------------------------------------------
// Target identifiers
// ----------------------------------------------------------------------------

/// The identifier of a target: its project (if the project is named) and its name.
#[derive(Debug, Clone, PartialEq, Eq, Hash)]
pub struct TargetId {
    pub project_name: Option<String>,
    pub target_name: String,
}

pub struct TargetIdView {
    pub project_name: Option<Seq<char>>,
    pub target_name: Seq<char>,
}

impl View for TargetId {
    type V = TargetIdView;

    open spec fn view(&self) -> TargetIdView {
        TargetIdView { project_name: self.project_name.deep_view(), target_name: self.target_name@ }
    }
}

impl DeepView for TargetId {
    type V = TargetIdView;

    open spec fn deep_view(&self) -> TargetIdView {
        self@
    }
}

/// Index of the first `::` in `s` at or after `from`, or `s.len()` if there is none.
pub open spec fn first_separator(s: Seq<char>, from: int) -> int
    decreases s.len() - from,
{
    if from < 0 || from + 1 >= s.len() {
        s.len() as int
    } else if s[from] == ':' && s[from + 1] == ':' {
        from
    } else {
        first_separator(s, from + 1)
    }
}

/// The identifier that a canonical name denotes: `project::target` or `target`
/// (the latter in `current_project`). `None` when the name holds more than one `::`.
pub open spec fn parse_target_id(s: Seq<char>, current_project: Option<Seq<char>>) -> Option<TargetIdView> {
    let i = first_separator(s, 0);
    if i >= s.len() {
        Some(TargetIdView { project_name: current_project, target_name: s })
    } else if first_separator(s, i + 2) >= s.len() {
        Some(TargetIdView { project_name: Some(s.take(i)), target_name: s.skip(i + 2) })
    } else {
        None
    }
}

/// The canonical name of an identifier: `project::target`, or `target` when the project has no name.
pub open spec fn canonical_name(id: TargetIdView) -> Seq<char> {
    match id.project_name {
        Some(p) => p + "::"@ + id.target_name,
        None => id.target_name,
    }
}

/// A canonical name held more than one `::` delimiter.
#[derive(Debug)]
pub struct InvalidTargetName {
    pub name: String,
}

impl InvalidTargetName {
    /// The message that reports this error.
    pub fn message(&self) -> (r: String)
        ensures
            r@ == "Invalid target canonical name: "@ + self.name@ + " (expected a maximum of one '::' delimiter)"@,
    {
        let mut r = owned("Invalid target canonical name: ");
        r.append(self.name.as_str());
        r.append(" (expected a maximum of one '::' delimiter)");
        r
    }
}

/// Index of the first `::` in `v` at or after `from`, or `v.len()` if there is none.
fn find_separator(v: &Vec<char>, from: usize) -> (r: usize)
    requires
        from <= v@.len(),
    ensures
        r as int == first_separator(v@, from as int),
        r <= v@.len(),
        r < v@.len() ==> r + 1 < v@.len() && v@[r as int] == ':' && v@[r + 1] == ':',
{
    let mut k = from;
    while k < v.len() && k + 1 < v.len() && !(v[k] == ':' && v[k + 1] == ':')
        invariant
            from <= k <= v@.len(),
            first_separator(v@, from as int) == first_separator(v@, k as int),
        decreases v@.len() - k,
    {
        k = k + 1;
    }
    if k < v.len() && k + 1 < v.len() {
        k
    } else {
        v.len()
    }
}

impl TargetId {
    /// A copy of this identifier.
    pub fn copy(&self) -> (r: TargetId)
        ensures
            r@ == self@,
    {
        let project_name = match &self.project_name {
            Some(p) => Some(owned(p.as_str())),
            None => None,
        };
        TargetId { project_name, target_name: owned(self.target_name.as_str()) }
    }

    /// Whether two identifiers are the same.
    pub fn same_as(&self, other: &TargetId) -> (b: bool)
        ensures
            b == (self@ == other@),
    {
        let same_project = match (&self.project_name, &other.project_name) {
            (Some(a), Some(b)) => *a == *b,
            (None, None) => true,
            _ => false,
        };
        same_project && self.target_name == other.target_name
    }

    /// Parses a canonical target name: `project::target`, or `target` for a
    /// target of `current_project`.
    pub fn try_parse(target_name: &str, current_project: &Option<String>) -> (r: Result<TargetId, InvalidTargetName>)
        ensures
            match r {
                Ok(id) => parse_target_id(target_name@, current_project.deep_view()) == Some(id@),
                Err(e) => parse_target_id(target_name@, current_project.deep_view()) is None
                    && e.name@ == target_name@,
            },
    {
        let v = chars_of(target_name);
        let n = target_name.unicode_len();
        let i = find_separator(&v, 0);
        if i >= n {
            let project_name = match current_project {
                Some(p) => Some(owned(p.as_str())),
                None => None,
            };
            return Ok(TargetId { project_name, target_name: owned(target_name) });
        }
        assert(i + 1 < n);
        let j = find_separator(&v, i + 2);
        if j >= n {
            let project = target_name.substring_char(0, i);
            let name = target_name.substring_char(i + 2, n);
            assert(target_name@.subrange(0, i as int) == target_name@.take(i as int));
            assert(target_name@.subrange(i + 2, n as int) == target_name@.skip(i + 2));
            Ok(TargetId { project_name: Some(owned(project)), target_name: owned(name) })
        } else {
            Err(InvalidTargetName { name: owned(target_name) })
        }
    }

    /// Parses every name of `target_names` (see `try_parse`); fails on the first invalid one.
    pub fn try_parse_many(target_names: &Vec<String>, current_project: &Option<String>) -> (r: Result<Vec<TargetId>, InvalidTargetName>)
        ensures
            match r {
                Ok(ids) => ids@.len() == target_names@.len()
                    && forall|k: int| 0 <= k < ids@.len() ==>
                        parse_target_id(target_names@[k]@, current_project.deep_view()) == Some(#[trigger] ids@[k]@),
                Err(e) => exists|k: int| 0 <= k < target_names@.len()
                    && parse_target_id(#[trigger] target_names@[k]@, current_project.deep_view()) is None
                    && e.name@ == target_names@[k]@
                    && forall|m: int| 0 <= m < k ==> parse_target_id(#[trigger] target_names@[m]@, current_project.deep_view()) is Some,
            },
    {
        let mut ids: Vec<TargetId> = Vec::new();
        for i in 0..target_names.len()
            invariant
                ids@.len() == i,
                forall|k: int| 0 <= k < i ==>
                    parse_target_id(target_names@[k]@, current_project.deep_view()) == Some(#[trigger] ids@[k]@),
        {
            match TargetId::try_parse(target_names[i].as_str(), current_project) {
                Ok(id) => ids.push(id),
                Err(e) => {
                    assert(forall|m: int| 0 <= m < i ==> parse_target_id(#[trigger] target_names@[m]@, current_project.deep_view()) == Some(ids@[m]@));
                    return Err(e);
                },
            }
        }
        Ok(ids)
    }

    /// The canonical name of this identifier (how it is displayed).
    pub fn to_string(&self) -> (r: String)
        ensures
            r@ == canonical_name(self@),
    {
        match &self.project_name {
            Some(p) => {
                let mut r = owned(p.as_str());
                r.append("::");
                r.append(self.target_name.as_str());
                r
            },
            None => owned(self.target_name.as_str()),
        }
    }
}

/// A copy of a list of identifiers.
pub fn copy_ids(ids: &Vec<TargetId>) -> (r: Vec<TargetId>)
    ensures
        r.deep_view() == ids.deep_view(),
{
    let mut r: Vec<TargetId> = Vec::new();
    for i in 0..ids.len()
        invariant
            r@.len() == i,
            forall|k: int| 0 <= k < i ==> (#[trigger] r@[k])@ == ids@[k]@,
    {
        r.push(ids[i].copy());
    }
    assert(r.deep_view() =~= ids.deep_view());
    r
}

/// Whether `id` occurs in `ids`.
pub fn contains_id(ids: &Vec<TargetId>, id: &TargetId) -> (b: bool)
    ensures
        b == ids.deep_view().contains(id@),
{
    for i in 0..ids.len()
        invariant
            forall|k: int| 0 <= k < i ==> ids.deep_view()[k] != id@,
    {
        if ids[i].same_as(id) {
            assert(ids.deep_view()[i as int] == id@);
            return true;
        }
    }
    false
}

/// A copy of a list of strings.
pub fn copy_strings(v: &Vec<String>) -> (r: Vec<String>)
    ensures
        r.deep_view() == v.deep_view(),
{
    let mut r: Vec<String> = Vec::new();
    for i in 0..v.len()
        invariant
            r@.len() == i,
            forall|k: int| 0 <= k < i ==> (#[trigger] r@[k])@ == v@[k]@,
    {
        r.push(owned(v[i].as_str()));
    }
    assert(r.deep_view() =~= v.deep_view());
    r
}

// ----------------------------------------------------------------------------
// Resources
// ----------------------------------------------------------------------------

/// Files and directories, optionally restricted to some file extensions.
#[derive(Debug, PartialEq, Clone)]
pub struct FilesResource {
    pub paths: Vec<String>,
    /// `None`: every file. Otherwise the extensions (each starting with `.`) a file
    /// name may end with. The order of the extensions does not matter.
    pub extensions: Option<Vec<String>>,
}

pub struct FilesResourceView {
    pub paths: Seq<Seq<char>>,
    pub extensions: Option<Set<Seq<char>>>,
}

impl View for FilesResource {
    type V = FilesResourceView;

    open spec fn view(&self) -> FilesResourceView {
        FilesResourceView {
            paths: self.paths.deep_view(),
            extensions: match &self.extensions {
                Some(e) => Some(e.deep_view().to_set()),
                None => None,
            },
        }
    }
}

impl DeepView for FilesResource {
    type V = FilesResourceView;

    open spec fn deep_view(&self) -> FilesResourceView {
        self@
    }
}

impl FilesResource {
    pub fn copy(&self) -> (r: FilesResource)
        ensures
            r@ == self@,
    {
        let extensions = match &self.extensions {
            Some(e) => Some(copy_strings(e)),
            None => None,
        };
        FilesResource { paths: copy_strings(&self.paths), extensions }
    }
}

/// The standard output of a shell command run in a directory.
#[derive(Debug, PartialEq, Clone)]
pub struct CmdResource {
    pub cmd: String,
    pub dir: String,
}

pub struct CmdResourceView {
    pub cmd: Seq<char>,
    pub dir: Seq<char>,
}

impl View for CmdResource {
    type V = CmdResourceView;

    open spec fn view(&self) -> CmdResourceView {
        CmdResourceView { cmd: self.cmd@, dir: self.dir@ }
    }
}

impl DeepView for CmdResource {
    type V = CmdResourceView;

    open spec fn deep_view(&self) -> CmdResourceView {
        self@
    }
}

impl CmdResource {
    pub fn copy(&self) -> (r: CmdResource)
        ensures
            r@ == self@,
    {
        CmdResource { cmd: owned(self.cmd.as_str()), dir: owned(self.dir.as_str()) }
    }
}

/// The resources a target reads or produces.
#[derive(Debug, PartialEq, Clone)]
pub struct Resources {
    pub files: Vec<FilesResource>,
    pub cmds: Vec<CmdResource>,
}

pub struct ResourcesView {
    pub files: Seq<FilesResourceView>,
    pub cmds: Seq<CmdResourceView>,
}

impl View for Resources {
    type V = ResourcesView;

    open spec fn view(&self) -> ResourcesView {
        ResourcesView { files: self.files.deep_view(), cmds: self.cmds.deep_view() }
    }
}

impl DeepView for Resources {
    type V = ResourcesView;

    open spec fn deep_view(&self) -> ResourcesView {
        self@
    }
}

pub open spec fn empty_resources() -> ResourcesView {
    ResourcesView { files: Seq::empty(), cmds: Seq::empty() }
}

pub open spec fn extended_resources(a: ResourcesView, b: ResourcesView) -> ResourcesView {
    ResourcesView { files: a.files + b.files, cmds: a.cmds + b.cmds }
}

impl Resources {
    pub fn new() -> (r: Resources)
        ensures
            r@ == empty_resources(),
    {
        let r = Resources { files: Vec::new(), cmds: Vec::new() };
        assert(r@.files =~= Seq::<FilesResourceView>::empty());
        assert(r@.cmds =~= Seq::<CmdResourceView>::empty());
        r
    }

    pub fn is_empty(&self) -> (b: bool)
        ensures
            b == (self@.files.len() == 0 && self@.cmds.len() == 0),
    {
        self.files.len() == 0 && self.cmds.len() == 0
    }

    /// Appends the resources of `other` to these.
    pub fn extend(&mut self, other: &Resources)
        ensures
            final(self)@ == extended_resources(old(self)@, other@),
    {
        let ghost f0 = self.files@;
        let ghost c0 = self.cmds@;
        for i in 0..other.files.len()
            invariant
                self.files@.len() == f0.len() + i,
                forall|k: int| 0 <= k < f0.len() ==> (#[trigger] self.files@[k])@ == f0[k]@,
                forall|k: int| 0 <= k < i ==> (#[trigger] self.files@[f0.len() + k])@ == other.files@[k]@,
                self.cmds@ == c0,
        {
            self.files.push(other.files[i].copy());
            assert(self.files@[f0.len() + i]@ == other.files@[i as int]@);
        }
        for i in 0..other.cmds.len()
            invariant
                self.files@.len() == f0.len() + other.files@.len(),
                forall|k: int| 0 <= k < f0.len() ==> (#[trigger] self.files@[k])@ == f0[k]@,
                forall|k: int| 0 <= k < other.files@.len() ==> (#[trigger] self.files@[f0.len() + k])@ == other.files@[k]@,
                self.cmds@.len() == c0.len() + i,
                forall|k: int| 0 <= k < c0.len() ==> (#[trigger] self.cmds@[k])@ == c0[k]@,
                forall|k: int| 0 <= k < i ==> (#[trigger] self.cmds@[c0.len() + k])@ == other.cmds@[k]@,
        {
            self.cmds.push(other.cmds[i].copy());
            assert(self.cmds@[c0.len() + i]@ == other.cmds@[i as int]@);
        }
        assert forall|k: int| 0 <= k < self.files@.len() implies
            (#[trigger] self.files.deep_view()[k]) == (old(self)@.files + other@.files)[k] by {
            if k >= f0.len() {
                assert(self.files@[f0.len() + (k - f0.len())]@ == other.files@[k - f0.len()]@);
            }
        }
        assert forall|k: int| 0 <= k < self.cmds@.len() implies
            (#[trigger] self.cmds.deep_view()[k]) == (old(self)@.cmds + other@.cmds)[k] by {
            if k >= c0.len() {
                assert(self.cmds@[c0.len() + (k - c0.len())]@ == other.cmds@[k - c0.len()]@);
            }
        }
        assert(self.files.deep_view() =~= old(self)@.files + other@.files);
        assert(self.cmds.deep_view() =~= old(self)@.cmds + other@.cmds);
    }

    pub fn copy(&self) -> (r: Resources)
        ensures
            r@ == self@,
    {
        let mut r = Resources::new();
        r.extend(self);
        assert(r@.files =~= self@.files);
        assert(r@.cmds =~= self@.cmds);
        r
    }
}

/// Whether a file name ends with one of `extensions` (always, when there is no restriction).
pub open spec fn name_matches_extensions(name: Seq<char>, extensions: Option<Seq<Seq<char>>>) -> bool {
    match extensions {
        None => true,
        Some(exts) => exists|i: int| 0 <= i < exts.len() && ends_with(name, #[trigger] exts[i]),
    }
}

proof fn lemma_extension_witness(name: Seq<char>, exts: Seq<Seq<char>>, i: int)
    requires
        0 <= i < exts.len(),
        ends_with(name, exts[i]),
    ensures
        name_matches_extensions(name, Some(exts)),
{
    let o: Option<Seq<Seq<char>>> = Some(exts);
    assert(o->0 == exts);
    assert(exists|j: int| 0 <= j < exts.len() && ends_with(name, #[trigger] exts[j]));
}

/// Whether `file` has one of the `extensions`: always, when there is no
/// restriction; otherwise `file` is a path that has a file name, and that name
/// ends with one of them.
pub fn matches_extensions(file: &str, extensions: &Option<Vec<String>>) -> (b: bool)
    requires
        extensions is Some ==> path_file_name(file@) is Some,
    ensures
        b == match extensions {
            None => true,
            Some(_) => name_matches_extensions(path_file_name(file@)->0, extensions.deep_view()),
        },
{
    match extensions {
        None => true,
        Some(exts) => {
            let name = file_name(file).unwrap();
            assert(extensions.deep_view() == Some(exts.deep_view()));
            for i in 0..exts.len()
                invariant
                    extensions.deep_view() == Some(exts.deep_view()),
                    name@ == path_file_name(file@)->0,
                    forall|k: int| 0 <= k < i ==> !ends_with(name@, #[trigger] exts.deep_view()[k]),
            {
                if str_ends_with(name.as_str(), exts[i].as_str()) {
                    proof {
                        lemma_extension_witness(name@, exts.deep_view(), i as int);
                    }
                    return true;
                }
            }
            false
        },
    }
}

/// Whether `file` has one of the `extensions` (always, with no restriction);
/// `None` when extensions are given and `file` has no file name.
pub fn file_matches_extensions(file: &str, extensions: &Option<Vec<String>>) -> (r: Option<bool>)
    ensures
        match extensions {
            None => r == Some(true),
            Some(_) => match path_file_name(file@) {
                Some(name) => r == Some(name_matches_extensions(name, extensions.deep_view())),
                None => r is None,
            },
        },
{
    if extensions.is_some() && file_name(file).is_none() {
        return None;
    }
    Some(matches_extensions(file, extensions))
}

} // verus!

verus! {

// ----------------------------------------------------------------------------
// Targets
// ----------------------------------------------------------------------------

/// What every target has: its identifier, the directory of its project and the
/// targets it depends on.
#[derive(Debug, Clone)]
pub struct TargetMetadata {
    pub id: TargetId,
    pub project_dir: String,
    pub dependencies: Vec<TargetId>,
}

pub struct TargetMetadataView {
    pub id: TargetIdView,
    pub project_dir: Seq<char>,
    pub dependencies: Seq<TargetIdView>,
}

impl View for TargetMetadata {
    type V = TargetMetadataView;

    open spec fn view(&self) -> TargetMetadataView {
        TargetMetadataView {
            id: self.id@,
            project_dir: self.project_dir@,
            dependencies: self.dependencies.deep_view(),
        }
    }
}

impl TargetMetadata {
    pub fn copy(&self) -> (r: TargetMetadata)
        ensures
            r@ == self@,
    {
        TargetMetadata {
            id: self.id.copy(),
            project_dir: owned(self.project_dir.as_str()),
            dependencies: copy_ids(&self.dependencies),
        }
    }

    /// The canonical name of the target (how it is displayed).
    pub fn to_string(&self) -> (r: String)
        ensures
            r@ == canonical_name(self.id@),
    {
        self.id.to_string()
    }
}

/// A target that runs a build script.
#[derive(Debug)]
pub struct BuildTarget {
    pub metadata: TargetMetadata,
    pub build_script: String,
    pub input: Resources,
    pub output: Resources,
}

/// A target that runs a long-lasting service.
#[derive(Debug)]
pub struct ServiceTarget {
    pub metadata: TargetMetadata,
    pub run_script: String,
    pub input: Resources,
}

/// A target that only groups its dependencies.
#[derive(Debug)]
pub struct AggregateTarget {
    pub metadata: TargetMetadata,
}

/// A program to run, with its arguments, directory and environment.
#[derive(Debug)]
pub struct Command {
    pub program: String,
    pub args: Vec<String>,
    pub dir: String,
    pub env: Vec<(String, String)>,
}

#[derive(Debug)]
pub enum Target {
    Build(BuildTarget),
    Service(ServiceTarget),
    Aggregate(AggregateTarget),
}

pub enum TargetView {
    Build { metadata: TargetMetadataView, build_script: Seq<char>, input: ResourcesView, output: ResourcesView },
    Service { metadata: TargetMetadataView, run_script: Seq<char>, input: ResourcesView },
    Aggregate { metadata: TargetMetadataView },
}

impl TargetView {
    pub open spec fn metadata(self) -> TargetMetadataView {
        match self {
            TargetView::Build { metadata, .. } => metadata,
            TargetView::Service { metadata, .. } => metadata,
            TargetView::Aggregate { metadata } => metadata,
        }
    }

    pub open spec fn id(self) -> TargetIdView {
        self.metadata().id
    }

    pub open spec fn dependencies(self) -> Seq<TargetIdView> {
        self.metadata().dependencies
    }

    pub open spec fn input(self) -> Option<ResourcesView> {
        match self {
            TargetView::Build { input, .. } => Some(input),
            TargetView::Service { input, .. } => Some(input),
            TargetView::Aggregate { .. } => None,
        }
    }

    pub open spec fn output(self) -> Option<ResourcesView> {
        match self {
            TargetView::Build { output, .. } => Some(output),
            _ => None,
        }
    }

    /// The same target with `more` appended to its dependencies.
    pub open spec fn with_more_dependencies(self, more: Seq<TargetIdView>) -> TargetView {
        let m = TargetMetadataView { dependencies: self.metadata().dependencies + more, ..self.metadata() };
        match self {
            TargetView::Build { build_script, input, output, .. } => TargetView::Build { metadata: m, build_script, input, output },
            TargetView::Service { run_script, input, .. } => TargetView::Service { metadata: m, run_script, input },
            TargetView::Aggregate { .. } => TargetView::Aggregate { metadata: m },
        }
    }

    /// The same target with `more` appended to its input (aggregates have none).
    pub open spec fn with_more_input(self, more: ResourcesView) -> TargetView {
        match self {
            TargetView::Build { metadata, build_script, input, output } =>
                TargetView::Build { metadata, build_script, input: extended_resources(input, more), output },
            TargetView::Service { metadata, run_script, input } =>
                TargetView::Service { metadata, run_script, input: extended_resources(input, more) },
            TargetView::Aggregate { metadata } => TargetView::Aggregate { metadata },
        }
    }
}

impl View for Target {
    type V = TargetView;

    open spec fn view(&self) -> TargetView {
        match self {
            Target::Build(t) => TargetView::Build {
                metadata: t.metadata@,
                build_script: t.build_script@,
                input: t.input@,
                output: t.output@,
            },
            Target::Service(t) => TargetView::Service {
                metadata: t.metadata@,
                run_script: t.run_script@,
                input: t.input@,
            },
            Target::Aggregate(t) => TargetView::Aggregate { metadata: t.metadata@ },
        }
    }
}

impl DeepView for Target {
    type V = TargetView;

    open spec fn deep_view(&self) -> TargetView {
        self@
    }
}

/// The input of an aggregate target cannot be extended.
#[derive(Debug)]
pub struct AggregateInputError;

impl AggregateInputError {
    pub fn message(&self) -> (r: String)
        ensures
            r@ == "Can't extend the input of an aggregate target"@,
    {
        owned("Can't extend the input of an aggregate target")
    }
}

impl Target {
    pub fn metadata(&self) -> (r: &TargetMetadata)
        ensures
            r@ == self@.metadata(),
    {
        match self {
            Target::Build(target) => &target.metadata,
            Target::Service(target) => &target.metadata,
            Target::Aggregate(target) => &target.metadata,
        }
    }

    pub fn id(&self) -> (r: &TargetId)
        ensures
            r@ == self@.id(),
    {
        &self.metadata().id
    }

    pub fn dependencies(&self) -> (r: &Vec<TargetId>)
        ensures
            r.deep_view() == self@.dependencies(),
    {
        &self.metadata().dependencies
    }

    /// Appends `additional_dependencies` to the dependencies of the target.
    pub fn extend_dependencies(&mut self, additional_dependencies: &Vec<TargetId>)
        ensures
            final(self)@ == old(self)@.with_more_dependencies(additional_dependencies.deep_view()),
    {
        let ghost d0 = self@.dependencies();
        let ghost more = additional_dependencies.deep_view();
        let metadata = match self {
            Target::Build(target) => &mut target.metadata,
            Target::Service(target) => &mut target.metadata,
            Target::Aggregate(target) => &mut target.metadata,
        };
        let mut extra = copy_ids(additional_dependencies);
        metadata.dependencies.append(&mut extra);
        proof {
            assert(metadata.dependencies.deep_view() =~= d0 + more);
        }
    }

    pub fn input(&self) -> (r: Option<&Resources>)
        ensures
            match r {
                Some(res) => self@.input() == Some(res@),
                None => self@.input() is None,
            },
    {
        match self {
            Target::Build(target) => Some(&target.input),
            Target::Service(target) => Some(&target.input),
            _ => None,
        }
    }

    pub fn output(&self) -> (r: Option<&Resources>)
        ensures
            match r {
                Some(res) => self@.output() == Some(res@),
                None => self@.output() is None,
            },
    {
        match self {
            Target::Build(target) => Some(&target.output),
            _ => None,
        }
    }

    /// Appends `resources` to the input of the target; aggregates have no input.
    pub fn extend_input(&mut self, resources: &Resources) -> (r: Result<(), AggregateInputError>)
        ensures
            r is Err <==> old(self)@ is Aggregate,
            final(self)@ == old(self)@.with_more_input(resources@),
    {
        match self {
            Target::Build(target) => target.input.extend(resources),
            Target::Service(target) => target.input.extend(resources),
            Target::Aggregate(_) => {
                return Err(AggregateInputError);
            },
        }
        Ok(())
    }

    /// The canonical name of the target (how it is displayed).
    pub fn to_string(&self) -> (r: String)
        ensures
            r@ == canonical_name(self@.id()),
    {
        self.id().to_string()
    }
}

} // verus!

verus! {

/// No separator starts in `[from, to)` when none of those characters is `:`.
pub proof fn lemma_first_separator_skip(s: Seq<char>, from: int, to: int)
    requires
        0 <= from <= to <= s.len(),
        forall|k: int| from <= k < to ==> s[k] != ':',
    ensures
        first_separator(s, from) == first_separator(s, to),
    decreases to - from,
{
    if from < to {
        lemma_first_separator_skip(s, from + 1, to);
    }
}

/// A name without `:` denotes a target of the current project.
pub proof fn lemma_parse_plain(s: Seq<char>, current_project: Option<Seq<char>>)
    requires
        forall|k: int| 0 <= k < s.len() ==> s[k] != ':',
    ensures
        parse_target_id(s, current_project) == Some(TargetIdView { project_name: current_project, target_name: s }),
{
    lemma_first_separator_skip(s, 0, s.len() as int);
}

/// `p::n`, where neither `p` nor `n` holds a `:`, denotes target `n` of project `p`.
pub proof fn lemma_parse_qualified(s: Seq<char>, i: int, current_project: Option<Seq<char>>)
    requires
        0 <= i,
        i + 1 < s.len(),
        s[i] == ':',
        s[i + 1] == ':',
        forall|k: int| 0 <= k < i ==> s[k] != ':',
        forall|k: int| i + 2 <= k < s.len() ==> s[k] != ':',
    ensures
        parse_target_id(s, current_project) == Some(TargetIdView { project_name: Some(s.take(i)), target_name: s.skip(i + 2) }),
{
    lemma_first_separator_skip(s, 0, i);
    lemma_first_separator_skip(s, i + 2, s.len() as int);
}

/// Law: parsing the canonical name of an identifier gives the identifier back;
/// a name without a project is read in the current project. (Project and target
/// names hold no `:`, as valid names never do.)
pub proof fn law_canonical_name_parses_back(id: TargetIdView, current_project: Option<Seq<char>>)
    requires
        forall|k: int| 0 <= k < id.target_name.len() ==> id.target_name[k] != ':',
        id.project_name matches Some(p) ==> forall|k: int| 0 <= k < p.len() ==> p[k] != ':',
    ensures
        parse_target_id(canonical_name(id), current_project) == Some(match id.project_name {
            Some(_) => id,
            None => TargetIdView { project_name: current_project, target_name: id.target_name },
        }),
{
    match id.project_name {
        Some(p) => {
            reveal_strlit("::");
            let s = canonical_name(id);
            let i = p.len() as int;
            assert(s =~= p + seq![':', ':'] + id.target_name);
            assert(s[i] == ':' && s[i + 1] == ':');
            assert forall|k: int| 0 <= k < i implies s[k] != ':' by {
                assert(s[k] == p[k]);
            }
            assert forall|k: int| i + 2 <= k < s.len() implies s[k] != ':' by {
                assert(s[k] == id.target_name[k - i - 2]);
            }
            lemma_parse_qualified(s, i, current_project);
            assert(s.take(i) =~= p);
            assert(s.skip(i + 2) =~= id.target_name);
        },
        None => {
            lemma_parse_plain(id.target_name, current_project);
        },
    }
}

} // verus!

verus! {

// ----------------------------------------------------------------------------
// Lists of resolved targets
// ----------------------------------------------------------------------------

/// Some target of `ts` is identified by `id`.
pub open spec fn listed(ts: Seq<TargetView>, id: TargetIdView) -> bool {
    exists|j: int| 0 <= j < ts.len() && (#[trigger] ts[j]).id() == id
}

/// Some target of `ts` before index `i` is identified by `id`.
pub open spec fn listed_before(ts: Seq<TargetView>, id: TargetIdView, i: int) -> bool {
    exists|j: int| 0 <= j < i && (#[trigger] ts[j]).id() == id
}

/// No two targets of `ts` have the same identifier.
pub open spec fn ids_distinct(ts: Seq<TargetView>) -> bool {
    forall|i: int, j: int| 0 <= i < j < ts.len() ==> (#[trigger] ts[i]).id() != (#[trigger] ts[j]).id()
}

/// Every dependency of `ts[i]` comes before it in `ts`.
pub open spec fn dependencies_before(ts: Seq<TargetView>, i: int) -> bool {
    forall|d: int| 0 <= d < ts[i].dependencies().len() ==> listed_before(ts, #[trigger] ts[i].dependencies()[d], i)
}

/// `ts` lists distinct targets, each after all of its dependencies.
pub open spec fn ordered_targets(ts: Seq<TargetView>) -> bool {
    &&& ids_distinct(ts)
    &&& forall|i: int| 0 <= i < ts.len() ==> #[trigger] dependencies_before(ts, i)
}

/// Index of the target `id` in `targets`.
pub fn position_of(targets: &Vec<Target>, id: &TargetId) -> (r: Option<usize>)
    ensures
        match r {
            Some(i) => i < targets@.len() && targets.deep_view()[i as int].id() == id@
                && forall|j: int| 0 <= j < i ==> (#[trigger] targets.deep_view()[j]).id() != id@,
            None => !listed(targets.deep_view(), id@),
        },
{
    for i in 0..targets.len()
        invariant
            forall|j: int| 0 <= j < i ==> (#[trigger] targets.deep_view()[j]).id() != id@,
    {
        if targets[i].id().same_as(id) {
            return Some(i);
        }
    }
    None
}

/// The target `id` of `targets`, if listed.
pub fn find_target<'a>(targets: &'a Vec<Target>, id: &TargetId) -> (r: Option<&'a Target>)
    ensures
        match r {
            Some(t) => t@.id() == id@ && listed(targets.deep_view(), id@),
            None => !listed(targets.deep_view(), id@),
        },
{
    match position_of(targets, id) {
        Some(i) => Some(&targets[i]),
        None => None,
    }
}

} // verus!
