use zinoma::domain::{
    AggregateTarget, BuildTarget, CmdResource, FilesResource, Resources, ServiceTarget, Target, TargetId, TargetMetadata,
};
use zinoma::engine::build_state::TargetBuildStates;
use zinoma::engine::incremental::IncrementalRunResult;
use zinoma::engine::run_state::TargetRunStates;
use zinoma::engine::service::get_service_graph_targets;
use zinoma::engine::target_actor::{
    launch_target_actor, target_watch_list, ActorId, ActorInputMessage, ExecutionKind, TargetActorHelper,
    TargetActorOutputMessage, TargetActorState, TargetWatcherOption, TerminationAction,
};
use zinoma::engine::{failure_context, root_requests, route_watching, EngineAction, ExecuteOnce, WatchOption};
use zinoma::incremental::IncrementalRunResult as RunOutcome;

fn id(name: &str) -> TargetId {
    TargetId { project_name: None, target_name: name.to_string() }
}

fn metadata(name: &str, deps: Vec<&str>) -> TargetMetadata {
    TargetMetadata { id: id(name), project_dir: "/p".to_string(), dependencies: deps.into_iter().map(id).collect() }
}

fn build(name: &str, deps: Vec<&str>) -> Target {
    Target::Build(BuildTarget {
        metadata: metadata(name, deps),
        build_script: "make".to_string(),
        input: Resources::new(),
        output: Resources::new(),
    })
}

fn service(name: &str, deps: Vec<&str>) -> Target {
    Target::Service(ServiceTarget { metadata: metadata(name, deps), run_script: "serve".to_string(), input: Resources::new() })
}

fn aggregate(name: &str, deps: Vec<&str>) -> Target {
    Target::Aggregate(AggregateTarget { metadata: metadata(name, deps) })
}

fn dests(outs: &[TargetActorOutputMessage]) -> Vec<String> {
    outs.iter()
        .map(|o| match o {
            TargetActorOutputMessage::MessageActor { dest: ActorId::Target(t), .. } => t.target_name.clone(),
            TargetActorOutputMessage::MessageActor { dest: ActorId::Root, .. } => "root".to_string(),
            TargetActorOutputMessage::TargetExecutionError(t, _) => format!("error:{}", t.target_name),
        })
        .collect()
}

fn is_available(o: &TargetActorOutputMessage, expected_actual: bool) -> bool {
    matches!(o, TargetActorOutputMessage::MessageActor { msg: ActorInputMessage::Available { actual, .. }, .. } if *actual == expected_actual)
}

#[test]
fn build_actor_builds_once_requested_and_dependencies_available() {
    let state = launch_target_actor(build("b", vec!["d"]));
    let mut actor = match state {
        TargetActorState::Build(a) => a,
        _ => panic!("a build target gets a build actor"),
    };
    assert!(!actor.start_build_if_due());
    let outs = actor.on_message(ActorInputMessage::Requested { kind: ExecutionKind::Build, requester: ActorId::Root });
    assert_eq!(dests(&outs), vec!["d", "d"]);
    assert!(!actor.start_build_if_due());
    actor.on_message(ActorInputMessage::Available { kind: ExecutionKind::Build, target_id: id("d"), actual: true });
    assert!(!actor.start_build_if_due());
    actor.on_message(ActorInputMessage::Available { kind: ExecutionKind::Service, target_id: id("d"), actual: false });
    assert!(actor.start_build_if_due());
    assert!(!actor.start_build_if_due(), "one build at a time");
    let (outs, stop) = actor.on_build_finished(Ok(IncrementalRunResult::Completed));
    assert!(!stop);
    assert_eq!(dests(&outs), vec!["root"]);
    assert!(is_available(&outs[0], true));
}

#[test]
fn build_actor_rebuilds_when_invalidated_during_build() {
    let mut actor = match launch_target_actor(build("b", vec![])) {
        TargetActorState::Build(a) => a,
        _ => unreachable!(),
    };
    actor.on_message(ActorInputMessage::Requested { kind: ExecutionKind::Build, requester: ActorId::Root });
    assert!(actor.start_build_if_due());
    assert_eq!(dests(&actor.on_invalidated()), vec!["root"], "requesters are told once");
    assert!(actor.on_invalidated().is_empty());
    let (outs, _) = actor.on_build_finished(Ok(IncrementalRunResult::Skipped));
    assert!(outs.is_empty(), "an invalidated build is not reported");
    assert!(actor.start_build_if_due());
    let (outs, _) = actor.on_build_finished(Err(anyhow::Error::msg("boom")));
    assert_eq!(dests(&outs), vec!["error:b"]);
}

#[test]
fn build_actor_waits_for_cancelled_build_before_stopping() {
    let mut actor = match launch_target_actor(build("b", vec![])) {
        TargetActorState::Build(a) => a,
        _ => unreachable!(),
    };
    actor.on_message(ActorInputMessage::Requested { kind: ExecutionKind::Build, requester: ActorId::Root });
    assert!(actor.start_build_if_due());
    assert_eq!(actor.on_termination(), TerminationAction::CancelBuild);
    let (outs, stop) = actor.on_build_finished(Ok(IncrementalRunResult::Cancelled));
    assert!(outs.is_empty());
    assert!(stop);

    let mut idle = match launch_target_actor(build("c", vec![])) {
        TargetActorState::Build(a) => a,
        _ => unreachable!(),
    };
    assert_eq!(idle.on_termination(), TerminationAction::Stop);
}

#[test]
fn build_actor_answers_service_requests_at_once_and_unrequests() {
    let mut actor = match launch_target_actor(build("b", vec!["d"])) {
        TargetActorState::Build(a) => a,
        _ => unreachable!(),
    };
    let outs = actor.on_message(ActorInputMessage::Requested { kind: ExecutionKind::Service, requester: ActorId::Root });
    assert_eq!(dests(&outs), vec!["root"]);
    assert!(is_available(&outs[0], false));
    actor.on_message(ActorInputMessage::Requested { kind: ExecutionKind::Build, requester: ActorId::Root });
    let outs = actor.on_message(ActorInputMessage::Unrequested { kind: ExecutionKind::Build, requester: ActorId::Root });
    assert_eq!(dests(&outs), vec!["d", "d"]);
    let outs = actor.on_message(ActorInputMessage::Unrequested { kind: ExecutionKind::Build, requester: ActorId::Root });
    assert!(outs.is_empty());
}

#[test]
fn service_actor_restarts_and_stops_its_service() {
    let mut actor = match launch_target_actor(service("s", vec![])) {
        TargetActorState::Service(a) => a,
        _ => unreachable!(),
    };
    let (outs, stop) = actor.on_message(ActorInputMessage::Requested { kind: ExecutionKind::Service, requester: ActorId::Root });
    assert!(outs.is_empty() && !stop);
    assert!(actor.start_service_if_due());
    let outs = actor.on_service_restarted(Ok(()));
    assert_eq!(dests(&outs), vec!["root"]);
    assert!(!actor.start_service_if_due());
    let outs = actor.on_invalidated();
    assert_eq!(dests(&outs), vec!["root"]);
    assert!(actor.start_service_if_due());
    let outs = actor.on_service_restarted(Err(anyhow::Error::msg("no")));
    assert_eq!(dests(&outs), vec!["error:s"]);
    match &outs[0] {
        TargetActorOutputMessage::TargetExecutionError(_, e) => assert_eq!(e.to_string(), "no"),
        other => panic!("unexpected {:?}", other),
    }
    let (outs, stop) = actor.on_message(ActorInputMessage::Unrequested { kind: ExecutionKind::Service, requester: ActorId::Root });
    assert!(outs.is_empty());
    assert!(stop);
}

#[test]
fn aggregate_actor_is_available_once_its_dependencies_are() {
    let mut actor = match launch_target_actor(aggregate("a", vec!["x", "y"])) {
        TargetActorState::Aggregate(a) => a,
        _ => unreachable!(),
    };
    let outs = actor.on_message(ActorInputMessage::Requested { kind: ExecutionKind::Build, requester: ActorId::Root });
    assert_eq!(dests(&outs), vec!["x", "y"]);
    let outs = actor.on_message(ActorInputMessage::Available { kind: ExecutionKind::Build, target_id: id("x"), actual: false });
    assert!(outs.is_empty());
    let outs = actor.on_message(ActorInputMessage::Available { kind: ExecutionKind::Build, target_id: id("y"), actual: true });
    assert_eq!(dests(&outs), vec!["root"]);
    assert!(is_available(&outs[0], true));
    let outs = actor.on_message(ActorInputMessage::Invalidated { kind: ExecutionKind::Build, target_id: id("x") });
    assert_eq!(dests(&outs), vec!["root"]);
    let outs = actor.on_message(ActorInputMessage::Invalidated { kind: ExecutionKind::Build, target_id: id("y") });
    assert!(outs.is_empty());
    let outs = actor.on_message(ActorInputMessage::Unrequested { kind: ExecutionKind::Build, requester: ActorId::Root });
    assert_eq!(dests(&outs), vec!["x", "y"]);
}

#[test]
fn aggregate_without_dependencies_answers_requests_at_once() {
    let mut actor = match launch_target_actor(aggregate("a", vec![])) {
        TargetActorState::Aggregate(a) => a,
        _ => unreachable!(),
    };
    let outs = actor.on_message(ActorInputMessage::Requested { kind: ExecutionKind::Service, requester: ActorId::Root });
    assert_eq!(dests(&outs), vec!["root"]);
    assert!(is_available(&outs[0], false));
}

#[test]
fn helper_tells_requesters_of_an_invalidation_once() {
    let mut helper = TargetActorHelper::new(&metadata("t", vec![]));
    helper.requesters.insert(ExecutionKind::Build, &ActorId::Root);
    helper.set_execution_started();
    assert_eq!(helper.notify_invalidated(ExecutionKind::Build).len(), 1);
    assert!(helper.notify_invalidated(ExecutionKind::Build).is_empty());
    assert!(helper.notify_success(ExecutionKind::Build).is_empty());
    assert!(!helper.executed);
}

#[test]
fn execute_once_waits_for_every_root_build_and_service() {
    let roots = vec![id("a"), id("b")];
    let mut run = ExecuteOnce::new(&roots);
    assert!(!run.is_done());
    let avail = |kind, name: &str, actual| TargetActorOutputMessage::MessageActor {
        dest: ActorId::Root,
        msg: ActorInputMessage::Available { kind, target_id: id(name), actual },
    };
    assert!(matches!(run.on_output(avail(ExecutionKind::Build, "a", true)), EngineAction::Nothing));
    assert!(matches!(run.on_output(avail(ExecutionKind::Build, "b", false)), EngineAction::Nothing));
    assert!(!run.is_done());
    run.on_output(avail(ExecutionKind::Service, "a", false));
    run.on_output(avail(ExecutionKind::Service, "b", true));
    assert!(run.is_done());
    assert!(run.should_wait_for_termination());

    let forward = TargetActorOutputMessage::MessageActor {
        dest: ActorId::Target(id("a")),
        msg: ActorInputMessage::Requested { kind: ExecutionKind::Build, requester: ActorId::Root },
    };
    match run.on_output(forward) {
        EngineAction::Forward { target_id, .. } => assert_eq!(target_id, id("a")),
        other => panic!("unexpected {:?}", other),
    }
    let failure = TargetActorOutputMessage::TargetExecutionError(id("a"), anyhow::Error::msg("x"));
    match run.on_output(failure) {
        EngineAction::Fail { target_id, error } => {
            assert_eq!(target_id, id("a"));
            assert_eq!(error.to_string(), "x");
        }
        other => panic!("unexpected {:?}", other),
    }
    assert_eq!(failure_context(&id("a")), "An issue occurred with target a");
}

#[test]
fn execute_once_stops_on_termination() {
    let mut run = ExecuteOnce::new(&vec![id("a")]);
    run.on_termination();
    assert!(run.is_done());
    assert!(!run.should_wait_for_termination());
}

#[test]
fn watch_mode_warns_of_errors_and_ignores_messages_for_the_engine() {
    let failure = TargetActorOutputMessage::TargetExecutionError(id("a"), anyhow::Error::msg("x"));
    match route_watching(failure) {
        EngineAction::Warn { error, .. } => assert_eq!(error.to_string(), "x"),
        other => panic!("unexpected {:?}", other),
    }
    let to_root = TargetActorOutputMessage::MessageActor {
        dest: ActorId::Root,
        msg: ActorInputMessage::Invalidated { kind: ExecutionKind::Build, target_id: id("a") },
    };
    assert!(matches!(route_watching(to_root), EngineAction::Nothing));
}

#[test]
fn engine_requests_build_then_services_of_roots() {
    let msgs = root_requests();
    assert_eq!(msgs.len(), 2);
    assert!(matches!(msgs[0], ActorInputMessage::Requested { kind: ExecutionKind::Build, requester: ActorId::Root }));
    assert!(matches!(msgs[1], ActorInputMessage::Requested { kind: ExecutionKind::Service, requester: ActorId::Root }));
    assert_eq!(WatchOption::from(true), WatchOption::Enabled);
    assert_eq!(WatchOption::from(false), WatchOption::Disabled);
}

#[test]
fn watch_list_holds_input_paths_when_enabled() {
    let mut input = Resources::new();
    input.files.push(FilesResource { paths: vec!["/p/src".to_string(), "/p/lib".to_string()], extensions: None });
    input.cmds.push(CmdResource { cmd: "git rev-parse HEAD".to_string(), dir: "/p".to_string() });
    let target = Target::Service(ServiceTarget { metadata: metadata("s", vec![]), run_script: "x".to_string(), input });
    assert_eq!(target_watch_list(&target, TargetWatcherOption::Enabled), Some(vec!["/p/src".to_string(), "/p/lib".to_string()]));
    assert_eq!(target_watch_list(&target, TargetWatcherOption::Disabled), None);
    assert_eq!(target_watch_list(&aggregate("a", vec![]), TargetWatcherOption::Enabled), None);
    assert_eq!(target_watch_list(&build("b", vec![]), TargetWatcherOption::Enabled), None);
}

#[test]
fn build_states_list_targets_ready_to_build() {
    let targets = vec![build("a", vec![]), build("b", vec!["a"]), build("c", vec!["b"])];
    let mut states = TargetBuildStates::new(&targets);
    assert_eq!(states.get_ready_to_build_targets(), vec![id("a")]);
    states.set_build_started(&id("a"));
    assert!(states.get_ready_to_build_targets().is_empty());
    states.set_build_finished(&id("a"), &RunOutcome::Run(Ok::<(), anyhow::Error>(())));
    assert_eq!(states.get_ready_to_build_targets(), vec![id("b")]);
    states.set_build_started(&id("b"));
    states.set_build_invalidated(&id("b"));
    states.set_build_finished(&id("b"), &RunOutcome::<Result<(), anyhow::Error>>::Skipped);
    assert_eq!(states.get_ready_to_build_targets(), vec![id("b")], "invalidated while building: build again");
    states.set_build_started(&id("b"));
    assert_eq!(states.cancel_all_builds(), vec![id("b")]);
    states.set_build_started(&id("b"));
    states.set_build_finished(&id("b"), &RunOutcome::Run(Err::<(), String>("failed".to_string())));
    assert!(!states.all_are_built());
    assert!(states.get_ready_to_build_targets().is_empty());
}

#[test]
fn run_states_treat_services_as_runs() {
    let targets = vec![build("a", vec![]), service("s", vec!["a"])];
    let mut states = TargetRunStates::new(&targets);
    assert_eq!(states.list_ready_to_run_targets(), vec![id("a")]);
    states.set_build_started(&id("a"));
    states.set_finished(&id("a"), &RunOutcome::Run(Ok::<(), String>(())));
    assert_eq!(states.list_ready_to_run_targets(), vec![id("s")]);
    states.set_run_started(&id("s"));
    states.set_finished(&id("s"), &RunOutcome::Run(Ok::<(), String>(())));
    assert!(states.all_are_built());
    states.set_invalidated(&id("a"));
    assert!(!states.all_are_built());
    assert_eq!(states.list_ready_to_run_targets(), vec![id("a")]);
}

#[test]
fn service_graph_leaves_out_services_needed_by_builds_only() {
    let targets = vec![
        service("db", vec![]),
        service("cache", vec![]),
        build("compile", vec!["cache"]),
        service("api", vec!["db", "compile"]),
        aggregate("all", vec!["api"]),
    ];
    let graph = get_service_graph_targets(&targets, &vec![id("all")]);
    let mut names: Vec<String> = graph.to_vec().into_iter().map(|t| t.target_name).collect();
    names.sort();
    assert_eq!(names, vec!["api".to_string(), "db".to_string()]);
    assert!(get_service_graph_targets(&targets, &vec![id("compile")]).is_empty());
}
