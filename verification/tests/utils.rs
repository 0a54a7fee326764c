use zinoma::async_utils::{all, all_of_two, both, MaybeDone, PollState};
use zinoma::domain::{file_matches_extensions, matches_extensions, AggregateTarget, Target, TargetId, TargetMetadata};
use zinoma::engine::standalone_actor::{build_outcome, TargetActor, TargetActorInputMessage, TargetExecutionReportMessage, TargetExecutionResult};
use zinoma::engine::watcher::{relevant_paths, relevant_paths_checked};
use zinoma::incremental::IncrementalRunResult;
use zinoma::text::int_to_string;
use zinoma::watcher::{get_invalidated_targets, get_invalidated_targets_checked, WatchEvent};
use zinoma::work_dir::{get_work_dir_path, is_in_work_dir, is_work_dir};

#[test]
fn test_is_in_work_dir() {
    assert!(is_in_work_dir(".zinoma/my/file.json"));
    assert!(is_in_work_dir("/my/project/.zinoma/my/file.json"));
    assert!(!is_in_work_dir("/my/file.json"));
}

#[test]
fn work_dir_of_a_project() {
    assert_eq!(get_work_dir_path("/my/project"), "/my/project/.zinoma");
    assert!(is_work_dir(Some(".zinoma")));
    assert!(!is_work_dir(Some("zinoma")));
    assert!(!is_work_dir(None));
}

#[test]
fn watcher_keeps_relevant_paths_only() {
    let paths = vec![
        "/p/src/main.rs".to_string(),
        "/p/src/main.rs~".to_string(),
        "/p/.zinoma/t.checksums".to_string(),
        "/p/src/.lib.rs.swp".to_string(),
        "/p/README".to_string(),
    ];
    assert_eq!(relevant_paths(&paths), vec!["/p/src/main.rs".to_string(), "/p/README".to_string()]);
    assert_eq!(relevant_paths_checked(&vec!["/".to_string()]), None);
}

fn check_both(left: bool, right: bool) -> bool {
    both(left, right)
}

#[test]
fn async_utils_both_are_true() {
    assert!(check_both(true, true))
}

#[test]
fn async_utils_left_is_false() {
    assert!(!check_both(false, true))
}

#[test]
fn async_utils_right_is_false() {
    assert!(!check_both(true, false))
}

#[test]
fn async_utils_both_are_false() {
    assert!(!check_both(false, false))
}

#[test]
fn both_both_are_true() {
    assert_eq!(true, both(true, true))
}

#[test]
fn both_left_is_false() {
    assert_eq!(false, both(false, true))
}

#[test]
fn both_right_is_false() {
    assert_eq!(false, both(true, false))
}

#[test]
fn both_both_are_false() {
    assert_eq!(false, both(false, false))
}

#[test]
fn async_utils_true_for_empty() {
    let futures = Vec::<bool>::new();
    assert!(all(&futures));
}

#[test]
fn async_utils_true_if_all_true() {
    assert!(all(&vec![true, true]));
}

#[test]
fn async_utils_false_if_any_false() {
    assert!(!all(&vec![false, true]));
    assert!(!all(&vec![true, false]));
}

#[test]
fn iter_true_for_empty() {
    assert_eq!(true, all(&Vec::<bool>::new()));
}

#[test]
fn iter_true_if_all_true() {
    assert_eq!(true, all(&vec![true, true]));
}

#[test]
fn iter_false_if_any_false() {
    assert_eq!(false, all(&vec![false, true]));
    assert_eq!(false, all(&vec![true, false]));
}

fn resolve_pair(left: bool, right: bool) -> bool {
    let mut l: MaybeDone<()> = MaybeDone::Future(());
    let mut r: MaybeDone<()> = MaybeDone::Future(());
    let lp = l.poll_with(PollState::Ready(left));
    let rp = r.poll_with(PollState::Ready(right));
    match all_of_two(lp, rp) {
        PollState::Ready(b) => b,
        PollState::Pending => panic!("both futures are resolved"),
    }
}

#[test]
fn all_both_are_true() {
    assert!(resolve_pair(true, true))
}

#[test]
fn all_left_is_false() {
    assert!(!resolve_pair(false, true))
}

#[test]
fn all_right_is_false() {
    assert!(!resolve_pair(true, false))
}

#[test]
fn all_both_are_false() {
    assert!(!resolve_pair(false, false))
}

#[test]
fn all_of_two_waits_and_remembers() {
    assert_eq!(all_of_two(PollState::Ready(true), PollState::Pending), PollState::Pending);
    assert_eq!(all_of_two(PollState::Pending, PollState::Ready(false)), PollState::Ready(false));
    let mut m: MaybeDone<()> = MaybeDone::Future(());
    assert!(m.is_pending());
    assert_eq!(m.poll_with(PollState::Pending), PollState::Pending);
    assert_eq!(m.poll_with(PollState::Ready(true)), PollState::Ready(true));
    assert!(!m.is_pending());
    assert_eq!(m.poll_with(PollState::Ready(false)), PollState::Ready(true));
}

#[test]
fn integers_in_decimal() {
    assert_eq!(int_to_string(0), "0");
    assert_eq!(int_to_string(42), "42");
    assert_eq!(int_to_string(-7), "-7");
    assert_eq!(int_to_string(i32::MIN), "-2147483648");
    assert_eq!(int_to_string(i32::MAX), "2147483647");
}

#[test]
fn standalone_actor_executes_once_dependencies_are_available() {
    let id = |n: &str| TargetId { project_name: None, target_name: n.to_string() };
    let target = Target::Aggregate(AggregateTarget {
        metadata: TargetMetadata { id: id("t"), project_dir: ".".to_string(), dependencies: vec![id("d")] },
    });
    let mut actor = TargetActor::new(target);
    assert!(!actor.start_execution_if_due());
    actor.on_message(TargetActorInputMessage::TargetOutputAvailable(id("d")));
    assert!(actor.start_execution_if_due());
    actor.on_invalidated();
    let (report, stop) = actor.on_execution_finished(TargetExecutionResult::Success);
    assert!(!stop);
    assert!(matches!(report, Some(TargetExecutionReportMessage::TargetOutputAvailable(_))));
    assert!(!actor.executed);
    assert!(actor.start_execution_if_due());
    let (report, _) = actor.on_execution_finished(build_outcome(IncrementalRunResult::Run(Err(anyhow::Error::msg("x")))));
    assert!(matches!(report, Some(TargetExecutionReportMessage::TargetExecutionError(_, _))));
    let (report, stop) = actor.on_execution_finished(TargetExecutionResult::InterruptedByTermination);
    assert!(report.is_none() && stop);
}

#[test]
fn watchers_report_invalidated_targets_in_order() {
    let events = vec![
        WatchEvent::Changed("/p/src/main.rs".to_string()),
        WatchEvent::Nothing,
        WatchEvent::Changed("/p/src/main.rs~".to_string()),
        WatchEvent::Changed("/p/lib.rs".to_string()),
    ];
    assert_eq!(get_invalidated_targets(&events), Ok(vec![0, 3]));
    let failing = vec![WatchEvent::Nothing, WatchEvent::Failed("disconnected".to_string())];
    assert_eq!(get_invalidated_targets(&failing), Err("Watcher received error: disconnected".to_string()));
    assert_eq!(get_invalidated_targets_checked(&vec![WatchEvent::Changed("/".to_string())]), None);
}

#[test]
fn canonical_names_parse_back_to_their_identifiers() {
    let qualified = TargetId { project_name: Some("api".to_string()), target_name: "build".to_string() };
    let name = qualified.to_string();
    assert_eq!(name, "api::build");
    assert_eq!(TargetId::try_parse(&name, &Some("web".to_string())).unwrap(), qualified);

    let plain = TargetId { project_name: None, target_name: "build".to_string() };
    assert_eq!(
        TargetId::try_parse(&plain.to_string(), &Some("web".to_string())).unwrap(),
        TargetId { project_name: Some("web".to_string()), target_name: "build".to_string() }
    );
    assert_eq!(TargetId::try_parse(&plain.to_string(), &None).unwrap(), plain);
}

#[test]
fn files_match_extensions() {
    assert!(matches_extensions("/", &None));
    assert!(matches_extensions("/p/a.txt", &None));
    let rs = Some(vec![".rs".to_string()]);
    assert!(matches_extensions("/p/a.rs", &rs));
    assert!(!matches_extensions("/p/a.txt", &rs));
    assert_eq!(file_matches_extensions("/", &None), Some(true));
    assert_eq!(file_matches_extensions("/p/a.txt", &rs), Some(false));
    assert_eq!(file_matches_extensions("/", &rs), None);
}

#[test]
fn files_joined_onto_the_work_dir_lie_in_it() {
    let work_dir = get_work_dir_path("/my/project");
    assert_eq!(work_dir, "/my/project/.zinoma");
    let file = std::path::Path::new(&work_dir).join("target.checksums");
    assert!(is_in_work_dir(file.to_str().unwrap()));
    let nested = std::path::Path::new(&work_dir).join("a/b.json");
    assert!(is_in_work_dir(nested.to_str().unwrap()));
    assert!(is_in_work_dir(&zinoma::engine::incremental::get_checksums_file_path("/my/project", "build")));
}
