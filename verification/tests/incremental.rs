use std::hash::Hasher;
use zinoma::checksum::{checksum_file_name, does_checksum_match};
use zinoma::domain::{CmdResource, Resources};
use zinoma::engine::incremental::{
    get_checksums_file_path, run_result, saved_state_matches, should_save_env_state, should_skip_build,
    BuildCompletionReport, CmdRun, CmdStdoutState, EnvCmdOutputsState, EnvVarLookup, EnvVarsState, FileStamp,
    file_stamp, FileVerdict, FilesState, IncrementalRunResult, Modified,
};
use zinoma::incremental::{inputs_identifier, outputs_identifier, IncrementalRunner};

fn strings(v: Vec<&str>) -> Vec<String> {
    v.into_iter().map(str::to_string).collect()
}

#[test]
fn env_cmd_outputs_state_is_the_output_of_each_command() {
    let cmds = strings(vec!["date", "whoami"]);
    let runs = vec![
        CmdRun { code: 0, output: "monday".to_string() },
        CmdRun { code: 0, output: "me".to_string() },
    ];
    let state = EnvCmdOutputsState::current(&cmds, &runs).unwrap();
    assert_eq!(state.0.get(&"whoami".to_string()), Some(&"me".to_string()));
    assert_eq!(state.eq_current_state(&cmds, &runs), Ok(true));
    let changed = vec![
        CmdRun { code: 0, output: "tuesday".to_string() },
        CmdRun { code: 0, output: "me".to_string() },
    ];
    assert_eq!(state.eq_current_state(&cmds, &changed), Ok(false));
}

#[test]
fn env_cmd_outputs_state_reports_the_first_failed_command() {
    let cmds = strings(vec!["ok", "bad", "worse"]);
    let runs = vec![
        CmdRun { code: 0, output: String::new() },
        CmdRun { code: 2, output: String::new() },
        CmdRun { code: -1, output: String::new() },
    ];
    let err = EnvCmdOutputsState::current(&cmds, &runs).unwrap_err();
    assert_eq!(err.message(), "Command bad return error code 2");
    let err = EnvCmdOutputsState::current(&strings(vec!["x"]), &vec![CmdRun { code: -13, output: String::new() }]).unwrap_err();
    assert_eq!(err.message(), "Command x return error code -13");
}

#[test]
fn env_vars_state_compares_values_and_absences() {
    let names = strings(vec!["HOME", "UNSET"]);
    let lookups = vec![EnvVarLookup::Present("/home/me".to_string()), EnvVarLookup::NotPresent];
    let state = EnvVarsState::current(&names, &lookups).unwrap();
    assert_eq!(state.0.get(&"UNSET".to_string()), Some(&None));
    assert_eq!(state.eq_current_state(&names, &lookups), Ok(true));
    let now = vec![EnvVarLookup::Present("/home/me".to_string()), EnvVarLookup::Present("set".to_string())];
    assert_eq!(state.eq_current_state(&names, &now), Ok(false));
    let bad = vec![EnvVarLookup::NotUnicode, EnvVarLookup::NotPresent];
    assert_eq!(state.eq_current_state(&names, &bad).unwrap_err().message(), "Failed to look up env var HOME");
}

#[test]
fn cmd_stdout_state_matches_same_outputs_only() {
    let cmds = vec![
        CmdResource { cmd: "git rev-parse HEAD".to_string(), dir: "/p".to_string() },
        CmdResource { cmd: "date".to_string(), dir: "/p".to_string() },
    ];
    let outs = vec![Some("abc".to_string()), Some("monday".to_string())];
    let state = CmdStdoutState::current(&cmds, &outs).unwrap();
    assert!(state.eq_current_state(&cmds, &outs));
    assert!(!state.eq_current_state(&cmds, &vec![Some("abc".to_string()), None]));
    assert!(!state.eq_current_state(&cmds, &vec![Some("abd".to_string()), Some("monday".to_string())]));
    assert!(CmdStdoutState::current(&cmds, &vec![None, Some("x".to_string())]).is_none());
}

fn sea_hash(bytes: &[u8]) -> u64 {
    let mut hasher = seahash::SeaHasher::default();
    hasher.write(bytes);
    hasher.finish()
}

#[test]
fn file_stamps_hash_the_contents() {
    let modified = Modified { secs: 10, nanos: 3 };
    let stamp = file_stamp(&b"fn main() {}".to_vec(), modified);
    assert_eq!(stamp.modified, modified);
    assert_eq!(stamp.hash, sea_hash(b"fn main() {}"));
    assert_ne!(stamp.hash, file_stamp(&b"fn main() { }".to_vec(), modified).hash);
    assert_eq!(file_stamp(&vec![], modified).hash, sea_hash(&[]));
}

#[test]
fn files_state_checks_modification_time_then_contents() {
    let at = |secs| Modified { secs, nanos: 0 };
    let files = strings(vec!["/p/a", "/p/b"]);
    let state = FilesState::current(&files, &vec![file_stamp(&b"aaa".to_vec(), at(10)), file_stamp(&b"bbb".to_vec(), at(20))]);
    let a = "/p/a".to_string();
    assert_eq!(state.verdict(&a, Some(at(10))), FileVerdict::Unchanged);
    assert_eq!(state.verdict(&a, Some(at(11))), FileVerdict::CheckHash);
    assert_eq!(state.verdict(&a, None), FileVerdict::Changed);
    assert_eq!(state.verdict(&"/p/c".to_string(), Some(at(10))), FileVerdict::Changed);
    assert!(state.contents_match(&a, &Some(b"aaa".to_vec())));
    assert!(!state.contents_match(&a, &Some(b"aab".to_vec())));
    assert!(!state.contents_match(&a, &None));

    let modified = vec![Some(at(10)), Some(at(25))];
    assert!(state.eq_current_state(&files, &modified, &vec![None, Some(b"bbb".to_vec())]));
    assert!(!state.eq_current_state(&files, &modified, &vec![None, Some(b"bbc".to_vec())]));
    assert!(!state.eq_current_state(&files, &modified, &vec![None, None]));
    assert!(!state.eq_current_state(&strings(vec!["/p/a"]), &vec![modified[0]], &vec![None]));
}

#[test]
fn incremental_run_results_and_decisions() {
    assert_eq!(run_result(BuildCompletionReport::Completed), IncrementalRunResult::Completed);
    assert_eq!(run_result(BuildCompletionReport::Aborted), IncrementalRunResult::Cancelled);
    assert!(!should_save_env_state(&Resources::new()));
    let mut input = Resources::new();
    input.cmds.push(CmdResource { cmd: "x".to_string(), dir: ".".to_string() });
    assert!(should_save_env_state(&input));
    assert!(saved_state_matches(false, false, false));
    assert!(!saved_state_matches(true, false, true));
    assert!(saved_state_matches(true, true, true));
    assert!(should_skip_build(true, true));
    assert!(!should_skip_build(true, false));
    assert_eq!(get_checksums_file_path("/p", "t"), "/p/.zinoma/t.checksums");
}

#[test]
fn checksums_of_incremental_runner() {
    let runner = IncrementalRunner::new("/p/.buildy");
    assert_eq!(runner.get_checksum_file("t.inputs"), "/p/.buildy/t.inputs.checksum");
    assert_eq!(inputs_identifier("t"), "t.inputs");
    assert_eq!(outputs_identifier("t"), "t.outputs");
    assert!(runner.does_checksum_match(&None, &None));
    assert!(!runner.does_checksum_match(&Some("1".to_string()), &None));
    assert!(runner.does_checksum_match(&Some("1".to_string()), &Some("1".to_string())));
    let one = Some("1".to_string());
    assert!(runner.should_skip(&one, &one, &None, &None));
    assert!(!runner.should_skip(&one, &Some("2".to_string()), &None, &None));
}

#[test]
fn a_target_without_inputs_is_never_skipped() {
    let runner = IncrementalRunner::new("/p/.buildy");
    let out = Some("7".to_string());
    assert!(!runner.should_skip(&None, &None, &None, &None));
    assert!(!runner.should_skip(&None, &None, &out, &out));
}

#[test]
fn checksum_files_of_targets() {
    assert_eq!(checksum_file_name("build"), ".buildy/build.checksum");
    assert!(does_checksum_match("abc", &Some("abc".to_string())));
    assert!(!does_checksum_match("abc", &Some("abd".to_string())));
    assert!(!does_checksum_match("abc", &None));
}

#[test]
fn saved_files_state_matches_unchanged_files_whatever_their_contents() {
    let stamp = |secs, hash| FileStamp { modified: Modified { secs, nanos: 0 }, hash };
    let files = strings(vec!["/p/a", "/p/b", "/p/c"]);
    let stamps = vec![stamp(1, 7), stamp(2, 8), stamp(3, 9)];
    let state = FilesState::current(&files, &stamps);
    let modified: Vec<Option<Modified>> = stamps.iter().map(|s| Some(s.modified)).collect();
    assert!(state.eq_current_state(&files, &modified, &vec![None, None, None]));
    let other = Some(b"changed".to_vec());
    assert!(state.eq_current_state(&files, &modified, &vec![other.clone(), other.clone(), other]));
}
