//! Incremental builds: a build is skipped when the state of the target's input
//! and output resources is the one saved after its last successful build.

use crate::domain::{CmdResource, CmdResourceView, Resources};
use crate::paths::{join_path, joined_path};
use crate::work_dir::{WORK_DIR_NAME, get_work_dir_path};
use crate::engine::sets::KeyMap;
use crate::text::{decimal, int_to_string, owned};
use vstd::prelude::*;

verus! {

/// How an incremental run of a build ended.
#[derive(Debug, Clone, Copy, PartialEq, Eq, Structural)]
pub enum IncrementalRunResult {
    /// The state of the resources had not changed: the build did not run.
    Skipped,
    /// The build ran to its end.
    Completed,
    /// The build was cancelled.
    Cancelled,
}

/// How a build process ended.
#[derive(Debug, Clone, Copy, PartialEq, Eq, Structural)]
pub enum BuildCompletionReport {
    Completed,
    Aborted,
}

/// The result of an incremental run whose build ran and ended as `report`.
pub fn run_result(report: BuildCompletionReport) -> (r: IncrementalRunResult)
    ensures
        r == match report {
            BuildCompletionReport::Completed => IncrementalRunResult::Completed,
            BuildCompletionReport::Aborted => IncrementalRunResult::Cancelled,
        },
{
    match report {
        BuildCompletionReport::Completed => IncrementalRunResult::Completed,
        BuildCompletionReport::Aborted => IncrementalRunResult::Cancelled,
    }
}

} // verus!

verus! {

/// The map that inserting `keys[i] -> values[i]`, for each `i` in order, builds
/// from the empty map: a key given twice maps to its last value.
pub open spec fn fold_map<K, V>(keys: Seq<K>, values: Seq<V>) -> Map<K, V>
    decreases keys.len(),
{
    if keys.len() == 0 || values.len() == 0 {
        Map::empty()
    } else {
        fold_map(keys.drop_last(), values.drop_last()).insert(keys.last(), values.last())
    }
}

/// What running a command printed and how it exited.
#[derive(Debug)]
pub struct CmdRun {
    pub code: i32,
    pub output: String,
}

/// A command of the environment could not be run successfully.
#[derive(Debug, Clone, PartialEq, Eq)]
pub struct CmdOutputError {
    pub cmd: String,
    pub code: i32,
}

impl CmdOutputError {
    pub fn message(&self) -> (r: String)
        ensures
            r@ == "Command "@ + self.cmd@ + " return error code "@ + decimal(self.code as int),
    {
        let mut r = owned("Command ");
        r.append(self.cmd.as_str());
        r.append(" return error code ");
        r.append(int_to_string(self.code).as_str());
        proof {
            reveal_strlit("Command ");
            reveal_strlit(" return error code ");
        }
        r
    }
}

/// The outputs of the commands that an environment is probed with, by command.
#[derive(Debug)]
pub struct EnvCmdOutputsState(pub KeyMap<String, String>);

/// The index of the first of the first `n` flags that is set, if any.
pub open spec fn first_true(flags: Seq<bool>, n: int) -> Option<int>
    decreases n,
{
    if n <= 0 {
        None
    } else {
        match first_true(flags, n - 1) {
            Some(i) => Some(i),
            None => if flags[n - 1] { Some(n - 1) } else { None },
        }
    }
}

/// Which of `runs` failed (exited with a code other than 0).
pub open spec fn failed_runs(runs: Seq<CmdRun>) -> Seq<bool> {
    runs.map_values(|r: CmdRun| r.code != 0)
}

pub open spec fn run_outputs(runs: Seq<CmdRun>) -> Seq<Seq<char>> {
    runs.map_values(|r: CmdRun| r.output@)
}

impl EnvCmdOutputsState {
    pub open spec fn wf(&self) -> bool {
        self.0.wf()
    }

    pub open spec fn view(&self) -> Map<Seq<char>, Seq<char>> {
        self.0.view()
    }

    /// The state of the environment in which `cmds[i]` ran as `runs[i]`: the
    /// output of each command, or the error of the first command that failed.
    pub fn current(cmds: &Vec<String>, runs: &Vec<CmdRun>) -> (r: Result<EnvCmdOutputsState, CmdOutputError>)
        requires
            runs.len() == cmds.len(),
        ensures
            match first_true(failed_runs(runs@), runs.len() as int) {
                Some(i) => r matches Err(e) && e.cmd@ == cmds@[i]@ && e.code == runs@[i].code,
                None => r matches Ok(s) && s.wf() && s.view() == fold_map(cmds.deep_view(), run_outputs(runs@)),
            },
    {
        let mut state: KeyMap<String, String> = KeyMap::new();
        for i in 0..cmds.len()
            invariant
                runs.len() == cmds.len(),
                state.wf(),
                first_true(failed_runs(runs@), i as int) is None,
                state.view() == fold_map(cmds.deep_view().take(i as int), run_outputs(runs@).take(i as int)),
        {
            assert(failed_runs(runs@)[i as int] == (runs@[i as int].code != 0));
            if runs[i].code != 0 {
                assert(first_true(failed_runs(runs@), i + 1) == Some(i as int));
                proof {
                    lemma_first_true_stays(failed_runs(runs@), i + 1, runs.len() as int);
                }
                return Err(CmdOutputError { cmd: owned(cmds[i].as_str()), code: runs[i].code });
            }
            state.insert(owned(cmds[i].as_str()), owned(runs[i].output.as_str()));
            assert(cmds.deep_view().take(i + 1).drop_last() =~= cmds.deep_view().take(i as int));
            assert(run_outputs(runs@).take(i + 1).drop_last() =~= run_outputs(runs@).take(i as int));
        }
        assert(cmds.deep_view().take(cmds.len() as int) =~= cmds.deep_view());
        assert(run_outputs(runs@).take(cmds.len() as int) =~= run_outputs(runs@));
        Ok(EnvCmdOutputsState(state))
    }

    /// Whether the environment is as this state saved it, when `cmds[i]` ran as `runs[i]`.
    pub fn eq_current_state(&self, cmds: &Vec<String>, runs: &Vec<CmdRun>) -> (r: Result<bool, CmdOutputError>)
        requires
            self.wf(),
            runs.len() == cmds.len(),
        ensures
            match first_true(failed_runs(runs@), runs.len() as int) {
                Some(i) => r matches Err(e) && e.cmd@ == cmds@[i]@ && e.code == runs@[i].code,
                None => r == Ok::<bool, CmdOutputError>(self.view() == fold_map(cmds.deep_view(), run_outputs(runs@))),
            },
    {
        match Self::current(cmds, runs) {
            Ok(current) => Ok(current.0.same_as(&self.0)),
            Err(e) => Err(e),
        }
    }
}

/// Once a set flag is found among the first `n` flags, it stays the first among more.
pub proof fn lemma_first_true_stays(flags: Seq<bool>, n: int, m: int)
    requires
        0 <= n <= m,
        first_true(flags, n) is Some,
    ensures
        first_true(flags, m) == first_true(flags, n),
    decreases m - n,
{
    if n < m {
        lemma_first_true_stays(flags, n, m - 1);
    }
}

/// What looking up an environment variable gave.
#[derive(Debug)]
pub enum EnvVarLookup {
    Present(String),
    NotPresent,
    /// The variable is set, but not to valid Unicode.
    NotUnicode,
}

/// The value of a looked-up variable: `None` when it is not set.
pub open spec fn lookup_value(l: EnvVarLookup) -> Option<Seq<char>> {
    match l {
        EnvVarLookup::Present(s) => Some(s@),
        _ => None,
    }
}

pub open spec fn unreadable(lookups: Seq<EnvVarLookup>) -> Seq<bool> {
    lookups.map_values(|l: EnvVarLookup| l is NotUnicode)
}

/// An environment variable could not be looked up.
#[derive(Debug, Clone, PartialEq, Eq)]
pub struct EnvVarError {
    pub var_name: String,
}

impl EnvVarError {
    pub fn message(&self) -> (r: String)
        ensures
            r@ == "Failed to look up env var "@ + self.var_name@,
    {
        let mut r = owned("Failed to look up env var ");
        r.append(self.var_name.as_str());
        proof {
            reveal_strlit("Failed to look up env var ");
        }
        r
    }
}

/// The values of the environment variables that a target depends on, by name.
#[derive(Debug)]
pub struct EnvVarsState(pub KeyMap<String, Option<String>>);

impl EnvVarsState {
    pub open spec fn wf(&self) -> bool {
        self.0.wf()
    }

    pub open spec fn view(&self) -> Map<Seq<char>, Option<Seq<char>>> {
        self.0.view()
    }

    /// The state of the variables `var_names`, whose lookups gave `lookups`.
    pub fn current(var_names: &Vec<String>, lookups: &Vec<EnvVarLookup>) -> (r: Result<EnvVarsState, EnvVarError>)
        requires
            lookups.len() == var_names.len(),
        ensures
            match first_true(unreadable(lookups@), lookups.len() as int) {
                Some(i) => r matches Err(e) && e.var_name@ == var_names@[i]@,
                None => r matches Ok(s) && s.wf()
                    && s.view() == fold_map(var_names.deep_view(), lookups@.map_values(|l: EnvVarLookup| lookup_value(l))),
            },
    {
        let ghost values = lookups@.map_values(|l: EnvVarLookup| lookup_value(l));
        let mut state: KeyMap<String, Option<String>> = KeyMap::new();
        for i in 0..var_names.len()
            invariant
                lookups.len() == var_names.len(),
                values == lookups@.map_values(|l: EnvVarLookup| lookup_value(l)),
                state.wf(),
                first_true(unreadable(lookups@), i as int) is None,
                state.view() == fold_map(var_names.deep_view().take(i as int), values.take(i as int)),
        {
            assert(unreadable(lookups@)[i as int] == (lookups@[i as int] is NotUnicode));
            let value: Option<String> = match &lookups[i] {
                EnvVarLookup::Present(s) => Some(owned(s.as_str())),
                EnvVarLookup::NotPresent => None,
                EnvVarLookup::NotUnicode => {
                    assert(first_true(unreadable(lookups@), i + 1) == Some(i as int));
                    proof {
                        lemma_first_true_stays(unreadable(lookups@), i + 1, lookups.len() as int);
                    }
                    return Err(EnvVarError { var_name: owned(var_names[i].as_str()) });
                },
            };
            assert(value.deep_view() == values[i as int]);
            state.insert(owned(var_names[i].as_str()), value);
            assert(var_names.deep_view().take(i + 1).drop_last() =~= var_names.deep_view().take(i as int));
            assert(values.take(i + 1).drop_last() =~= values.take(i as int));
        }
        assert(var_names.deep_view().take(var_names.len() as int) =~= var_names.deep_view());
        assert(values.take(var_names.len() as int) =~= values);
        Ok(EnvVarsState(state))
    }

    /// Whether the variables `var_names`, whose lookups gave `lookups`, are as this state saved them.
    pub fn eq_current_state(&self, var_names: &Vec<String>, lookups: &Vec<EnvVarLookup>) -> (r: Result<bool, EnvVarError>)
        requires
            self.wf(),
            lookups.len() == var_names.len(),
        ensures
            match first_true(unreadable(lookups@), lookups.len() as int) {
                Some(i) => r matches Err(e) && e.var_name@ == var_names@[i]@,
                None => r == Ok::<bool, EnvVarError>(self.view()
                    == fold_map(var_names.deep_view(), lookups@.map_values(|l: EnvVarLookup| lookup_value(l)))),
            },
    {
        match Self::current(var_names, lookups) {
            Ok(current) => Ok(current.0.same_as(&self.0)),
            Err(e) => Err(e),
        }
    }
}

} // verus!

verus! {

/// The standard output of each command of the resources of a target, by command.
#[derive(Debug)]
pub struct CmdStdoutState(pub KeyMap<String, String>);

/// The commands of `cmds`, in order.
pub open spec fn cmd_names(cmds: Seq<CmdResourceView>) -> Seq<Seq<char>> {
    cmds.map_values(|c: CmdResourceView| c.cmd)
}

/// The command `cmd` printed now (`out`, `None` when it failed) what it printed when `state` was saved.
pub open spec fn stdout_unchanged(state: Map<Seq<char>, Seq<char>>, cmd: Seq<char>, out: Option<Seq<char>>) -> bool {
    out matches Some(o) && state.contains_key(cmd) && state[cmd] == o
}

impl CmdStdoutState {
    pub open spec fn wf(&self) -> bool {
        self.0.wf()
    }

    pub open spec fn view(&self) -> Map<Seq<char>, Seq<char>> {
        self.0.view()
    }

    /// The state of the commands `cmds`, whose runs printed `stdouts` (`None`
    /// for a command that failed): `None` when one failed.
    pub fn current(cmds: &Vec<CmdResource>, stdouts: &Vec<Option<String>>) -> (r: Option<CmdStdoutState>)
        requires
            stdouts.len() == cmds.len(),
        ensures
            (exists|i: int| 0 <= i < stdouts@.len() && (#[trigger] stdouts@[i]) is None) ==> r is None,
            (forall|i: int| 0 <= i < stdouts@.len() ==> (#[trigger] stdouts@[i]) is Some) ==> (r matches Some(s) && s.wf()
                && s.view() == fold_map(cmd_names(cmds.deep_view()), stdouts.deep_view().map_values(|o: Option<Seq<char>>| o->0))),
    {
        let ghost names = cmd_names(cmds.deep_view());
        let ghost outs = stdouts.deep_view().map_values(|o: Option<Seq<char>>| o->0);
        let mut state: KeyMap<String, String> = KeyMap::new();
        for i in 0..cmds.len()
            invariant
                stdouts.len() == cmds.len(),
                names == cmd_names(cmds.deep_view()),
                outs == stdouts.deep_view().map_values(|o: Option<Seq<char>>| o->0),
                state.wf(),
                forall|j: int| 0 <= j < i ==> (#[trigger] stdouts@[j]) is Some,
                state.view() == fold_map(names.take(i as int), outs.take(i as int)),
        {
            match &stdouts[i] {
                Some(out) => {
                    assert(names[i as int] == cmds@[i as int].cmd@);
                    assert(outs[i as int] == out@);
                    state.insert(owned(cmds[i].cmd.as_str()), owned(out.as_str()));
                    assert(names.take(i + 1).drop_last() =~= names.take(i as int));
                    assert(outs.take(i + 1).drop_last() =~= outs.take(i as int));
                },
                None => {
                    return None;
                },
            }
        }
        assert(names.take(cmds.len() as int) =~= names);
        assert(outs.take(cmds.len() as int) =~= outs);
        Some(CmdStdoutState(state))
    }

    /// Whether each command of `cmds` printed, when run now (`stdouts`), what
    /// it printed when the state was saved.
    pub fn eq_current_state(&self, cmds: &Vec<CmdResource>, stdouts: &Vec<Option<String>>) -> (b: bool)
        requires
            self.wf(),
            stdouts.len() == cmds.len(),
        ensures
            b == forall|i: int| 0 <= i < cmds@.len() ==> #[trigger] stdout_unchanged(self.view(), cmds@[i].cmd@, stdouts.deep_view()[i]),
    {
        for i in 0..cmds.len()
            invariant
                self.wf(),
                stdouts.len() == cmds.len(),
                forall|j: int| 0 <= j < i ==> #[trigger] stdout_unchanged(self.view(), cmds@[j].cmd@, stdouts.deep_view()[j]),
        {
            assert(stdouts.deep_view()[i as int] == stdouts@[i as int].deep_view());
            let same = match &stdouts[i] {
                Some(out) => match self.0.get(&cmds[i].cmd) {
                    Some(saved) => crate::text::str_eq(saved.as_str(), out.as_str()),
                    None => false,
                },
                None => false,
            };
            if !same {
                assert(!stdout_unchanged(self.view(), cmds@[i as int].cmd@, stdouts.deep_view()[i as int]));
                return false;
            }
        }
        true
    }
}

/// When a file was last modified, as a duration since the Unix epoch.
#[derive(Debug, Clone, Copy, PartialEq, Eq, Structural)]
pub struct Modified {
    pub secs: u64,
    pub nanos: u32,
}

/// The modification time and the hash of the content of a file.
#[derive(Debug, Clone, Copy, PartialEq, Eq, Structural)]
pub struct FileStamp {
    pub modified: Modified,
    pub hash: u64,
}

/// The SeaHash digest of `bytes`, as `seahash::SeaHasher` computes it.
pub uninterp spec fn sea_hash_of(bytes: Seq<u8>) -> u64;

/// Hashes `bytes` with `seahash::SeaHasher`: its default seeds, one `write` of
/// the bytes, then `finish`. The contract only names the digest: it is a
/// function of the bytes alone.
#[verifier::external_body]
pub(crate) fn sea_hash(bytes: &[u8]) -> (h: u64)
    ensures
        h == sea_hash_of(bytes@),
{
    let mut hasher = seahash::SeaHasher::default();
    std::hash::Hasher::write(&mut hasher, bytes);
    std::hash::Hasher::finish(&hasher)
}

/// The stamp of a file modified at `modified`, whose content is `contents`.
pub fn file_stamp(contents: &Vec<u8>, modified: Modified) -> (s: FileStamp)
    ensures
        s.hash == sea_hash_of(contents@),
        s.modified == modified,
{
    FileStamp { modified, hash: sea_hash(contents.as_slice()) }
}

impl DeepView for FileStamp {
    type V = FileStamp;

    open spec fn deep_view(&self) -> FileStamp {
        *self
    }
}

impl crate::engine::sets::Key for FileStamp {
    fn same_key(&self, other: &Self) -> (b: bool) {
        self.modified.secs == other.modified.secs && self.modified.nanos == other.modified.nanos
            && self.hash == other.hash
    }

    fn copy_key(&self) -> (r: Self) {
        *self
    }
}

/// What a file observed now says of the saved state.
#[derive(Debug, Clone, Copy, PartialEq, Eq, Structural)]
pub enum FileVerdict {
    /// The file is unchanged: it was saved with the same modification time.
    Unchanged,
    /// The file is changed: it was not saved, or its modification time is unknown.
    Changed,
    /// Its modification time differs: the hash of its content decides.
    CheckHash,
}

/// The stamps of the files of the resources of a target, by path.
#[derive(Debug)]
pub struct FilesState(pub KeyMap<String, FileStamp>);

impl FilesState {
    pub open spec fn wf(&self) -> bool {
        self.0.wf()
    }

    pub open spec fn view(&self) -> Map<Seq<char>, FileStamp> {
        self.0.view()
    }

    /// What the file `path`, modified at `modified` (`None` when unknown), says of the state.
    pub open spec fn verdict_of(self, path: Seq<char>, modified: Option<Modified>) -> FileVerdict {
        if !self.view().contains_key(path) {
            FileVerdict::Changed
        } else {
            match modified {
                None => FileVerdict::Changed,
                Some(m) => if m == self.view()[path].modified { FileVerdict::Unchanged } else { FileVerdict::CheckHash },
            }
        }
    }

    /// The state of the files `files`, stamped `stamps`.
    pub fn current(files: &Vec<String>, stamps: &Vec<FileStamp>) -> (r: FilesState)
        requires
            stamps.len() == files.len(),
        ensures
            r.wf(),
            r.view() == fold_map(files.deep_view(), stamps@),
    {
        let mut state: KeyMap<String, FileStamp> = KeyMap::new();
        for i in 0..files.len()
            invariant
                stamps.len() == files.len(),
                state.wf(),
                state.view() == fold_map(files.deep_view().take(i as int), stamps@.take(i as int)),
        {
            state.insert(owned(files[i].as_str()), stamps[i]);
            assert(files.deep_view().take(i + 1).drop_last() =~= files.deep_view().take(i as int));
            assert(stamps@.take(i + 1).drop_last() =~= stamps@.take(i as int));
        }
        assert(files.deep_view().take(files.len() as int) =~= files.deep_view());
        assert(stamps@.take(files.len() as int) =~= stamps@);
        FilesState(state)
    }

    /// What the file `path`, modified at `modified`, says of the state.
    pub fn verdict(&self, path: &String, modified: Option<Modified>) -> (v: FileVerdict)
        requires
            self.wf(),
        ensures
            v == self.verdict_of(path@, modified),
    {
        match self.0.get(path) {
            None => FileVerdict::Changed,
            Some(saved) => match modified {
                None => FileVerdict::Changed,
                Some(m) => if m.secs == saved.modified.secs && m.nanos == saved.modified.nanos {
                    FileVerdict::Unchanged
                } else {
                    FileVerdict::CheckHash
                },
            },
        }
    }

    /// Whether the content of `path` read now (`contents`, `None` when it
    /// could not be read) hashes as when the state was saved.
    pub fn contents_match(&self, path: &String, contents: &Option<Vec<u8>>) -> (b: bool)
        requires
            self.wf(),
        ensures
            b == (self.view().contains_key(path@) && contents_hash_to(contents.deep_view(), self.view()[path@].hash)),
    {
        match (self.0.get(path), contents) {
            (Some(saved), Some(c)) => {
                let h = sea_hash(c.as_slice());
                assert(c.deep_view() =~= c@);
                h == saved.hash
            },
            _ => false,
        }
    }

    /// Whether the files found now, `files` (each once), modified at
    /// `modified` and with the contents `contents` where their hash was needed
    /// (`None` where a content was not read), are those of the state, unchanged.
    pub fn eq_current_state(&self, files: &Vec<String>, modified: &Vec<Option<Modified>>,
        contents: &Vec<Option<Vec<u8>>>) -> (b: bool)
        requires
            self.wf(),
            modified.len() == files.len(),
            contents.len() == files.len(),
        ensures
            b == (files.len() == self.view().len() && forall|i: int| 0 <= i < files@.len() ==> #[trigger] file_unchanged(
                *self, files@[i]@, modified@[i], contents.deep_view()[i])),
    {
        if files.len() != self.0.len() {
            return false;
        }
        for i in 0..files.len()
            invariant
                self.wf(),
                modified.len() == files.len(),
                contents.len() == files.len(),
                forall|j: int| 0 <= j < i ==> #[trigger] file_unchanged(*self, files@[j]@, modified@[j], contents.deep_view()[j]),
        {
            let unchanged = match self.verdict(&files[i], modified[i]) {
                FileVerdict::Unchanged => true,
                FileVerdict::Changed => false,
                FileVerdict::CheckHash => self.contents_match(&files[i], &contents[i]),
            };
            assert(contents.deep_view()[i as int] == contents@[i as int].deep_view());
            if !unchanged {
                assert(!file_unchanged(*self, files@[i as int]@, modified@[i as int], contents.deep_view()[i as int]));
                return false;
            }
        }
        true
    }
}

/// The contents `contents` were read, and they hash to `hash`.
pub open spec fn contents_hash_to(contents: Option<Seq<u8>>, hash: u64) -> bool {
    contents matches Some(c) && sea_hash_of(c) == hash
}

/// The file `path` is as saved: saved with the same modification time, or its
/// contents read now hash as when it was saved.
pub open spec fn file_unchanged(state: FilesState, path: Seq<char>, modified: Option<Modified>,
    contents: Option<Seq<u8>>) -> bool {
    match state.verdict_of(path, modified) {
        FileVerdict::Unchanged => true,
        FileVerdict::Changed => false,
        FileVerdict::CheckHash => contents_hash_to(contents, state.view()[path].hash),
    }
}

/// Law: a command matches the saved state only when its output was saved and
/// it prints that output now; so a command whose output is not in the saved
/// state, or that fails now, makes the comparison of the commands false.
pub proof fn law_unsaved_command_never_matches(state: CmdStdoutState, cmds: Seq<CmdResourceView>,
    stdouts: Seq<Option<Seq<char>>>, i: int)
    requires
        0 <= i < cmds.len(),
        !state.view().contains_key(cmds[i].cmd) || stdouts[i] is None
            || stdouts[i] != Some(state.view()[cmds[i].cmd]),
    ensures
        !stdout_unchanged(state.view(), cmds[i].cmd, stdouts[i]),
        !(forall|j: int| 0 <= j < cmds.len() ==> #[trigger] stdout_unchanged(state.view(), cmds[j].cmd, stdouts[j])),
{
    assert(!stdout_unchanged(state.view(), cmds[i].cmd, stdouts[i]));
}

/// Law: a file whose stamp is not in the saved state, or whose modification
/// time is unknown, never matches it; nor does a file with another
/// modification time whose contents hash otherwise.
pub proof fn law_unsaved_or_changed_file_never_matches(state: FilesState, path: Seq<char>,
    modified: Option<Modified>, contents: Option<Seq<u8>>)
    requires
        !state.view().contains_key(path) || modified is None
            || (modified != Some(state.view()[path].modified)
                && !(contents matches Some(c) && sea_hash_of(c) == state.view()[path].hash)),
    ensures
        !file_unchanged(state, path, modified, contents),
{
}

/// The map built from distinct keys has one entry per key, holding its value.
pub proof fn lemma_fold_map_distinct<K, V>(keys: Seq<K>, values: Seq<V>)
    requires
        keys.len() == values.len(),
        keys.no_duplicates(),
    ensures
        fold_map(keys, values).dom().finite(),
        fold_map(keys, values).len() == keys.len(),
        forall|k: K| #[trigger] fold_map(keys, values).contains_key(k) <==> keys.contains(k),
        forall|i: int| 0 <= i < keys.len() ==> fold_map(keys, values)[#[trigger] keys[i]] == values[i],
    decreases keys.len(),
{
    if keys.len() > 0 {
        let ks = keys.drop_last();
        let vs = values.drop_last();
        assert(ks.no_duplicates()) by {
            assert forall|i: int, j: int| 0 <= i < ks.len() && 0 <= j < ks.len() && i != j implies ks[i] != ks[j] by {
                assert(ks[i] == keys[i] && ks[j] == keys[j]);
            }
        }
        lemma_fold_map_distinct(ks, vs);
        let m = fold_map(ks, vs);
        let last = keys.last();
        assert(!m.contains_key(last)) by {
            if m.contains_key(last) {
                let j = choose|j: int| 0 <= j < ks.len() && ks[j] == last;
                assert(keys[j] == keys[keys.len() - 1]);
            }
        }
        assert(fold_map(keys, values) == m.insert(last, values.last()));
        assert forall|k: K| #[trigger] fold_map(keys, values).contains_key(k) <==> keys.contains(k) by {
            if keys.contains(k) && k != last {
                let j = choose|j: int| 0 <= j < keys.len() && keys[j] == k;
                assert(ks[j] == k);
            }
            if ks.contains(k) {
                let j = choose|j: int| 0 <= j < ks.len() && ks[j] == k;
                assert(keys[j] == k);
            }
        }
        assert forall|i: int| 0 <= i < keys.len() implies fold_map(keys, values)[#[trigger] keys[i]] == values[i] by {
            if i < keys.len() - 1 {
                assert(ks[i] == keys[i]);
                assert(keys[i] != last);
            }
        }
    }
}

/// Law: files observed with the modification times they had when their state
/// was saved match that state, whatever their contents: an unchanged input or
/// output lets the target be skipped. (The listed files are distinct, as the
/// files of a set of paths are.)
pub proof fn law_unchanged_files_match_saved_state(
    state: FilesState,
    files: Seq<Seq<char>>,
    stamps: Seq<FileStamp>,
    contents: Seq<Option<Seq<u8>>>,
)
    requires
        state.view() == fold_map(files, stamps),
        stamps.len() == files.len(),
        contents.len() == files.len(),
        files.no_duplicates(),
    ensures
        files.len() == state.view().len(),
        forall|i: int| 0 <= i < files.len() ==> #[trigger] file_unchanged(
            state, files[i], Some(stamps[i].modified), contents[i]),
{
    lemma_fold_map_distinct(files, stamps);
    assert forall|i: int| 0 <= i < files.len() implies #[trigger] file_unchanged(
        state, files[i], Some(stamps[i].modified), contents[i]) by {
        assert(files.contains(files[i]));
        assert(state.view().contains_key(files[i]));
    }
}

/// Law: commands that print now what they printed when their state was saved
/// match that state. (The commands are distinct: a command listed twice keeps
/// only its last output.)
pub proof fn law_unchanged_stdouts_match_saved_state(
    state: CmdStdoutState,
    cmds: Seq<CmdResourceView>,
    stdouts: Seq<Seq<char>>,
)
    requires
        state.view() == fold_map(cmd_names(cmds), stdouts),
        stdouts.len() == cmds.len(),
        cmd_names(cmds).no_duplicates(),
    ensures
        forall|i: int| 0 <= i < cmds.len() ==> #[trigger] stdout_unchanged(state.view(), cmds[i].cmd, Some(stdouts[i])),
{
    lemma_fold_map_distinct(cmd_names(cmds), stdouts);
    assert forall|i: int| 0 <= i < cmds.len() implies #[trigger] stdout_unchanged(state.view(), cmds[i].cmd, Some(stdouts[i])) by {
        assert(cmd_names(cmds)[i] == cmds[i].cmd);
        assert(cmd_names(cmds).contains(cmds[i].cmd));
    }
}

} // verus!

verus! {

/// Whether the state of a target's resources is saved after a successful
/// build: only when the target has input resources.
pub fn should_save_env_state(target_input: &Resources) -> (b: bool)
    ensures
        b == !(target_input@.files.len() == 0 && target_input@.cmds.len() == 0),
{
    !target_input.is_empty()
}

/// Whether the saved state of one kind of resources (input or output) allows
/// skipping a build: there is nothing to compare when the target has no such
/// resources; a state that was not saved never matches.
pub fn saved_state_matches(has_resources: bool, has_saved_state: bool, current_matches: bool) -> (b: bool)
    ensures
        b == (!has_resources || (has_saved_state && current_matches)),
{
    if has_resources {
        has_saved_state && current_matches
    } else {
        true
    }
}

/// A build is skipped when the saved states of its input and of its output
/// both match the current ones.
pub fn should_skip_build(input_matches: bool, output_matches: bool) -> (b: bool)
    ensures
        b == (input_matches && output_matches),
{
    crate::async_utils::both(input_matches, output_matches)
}

/// The file where the state of the resources of the target `target_name`, of
/// the project in `project_dir`, is saved after its last successful build.
pub fn get_checksums_file_path(project_dir: &str, target_name: &str) -> (r: String)
    ensures
        r@ == joined_path(joined_path(project_dir@, WORK_DIR_NAME@), target_name@ + ".checksums"@),
{
    let dir = get_work_dir_path(project_dir);
    let mut name = owned(target_name);
    name.append(".checksums");
    join_path(dir.as_str(), name.as_str())
}

} // verus!
