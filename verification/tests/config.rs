use zinoma::config::conversion::{into_targets, RawTarget};
use zinoma::config::ir::{Config as IrConfig, ConfigError};
use zinoma::config::projects::{Project, ProjectTarget, Projects, Targets};
use zinoma::config::single_file::{validate_target, Config as FileConfig, ValidationError};
use zinoma::config::validation::{validate_targets, TargetError, ValidationError as ProjectValidationError};
use zinoma::config::yaml;
use zinoma::config::yaml::is_valid_target_name;
use zinoma::domain::{Target, TargetId};

fn assert_target_names() {
    assert!(
        is_valid_target_name("my-target"),
        "A target name can contain letters and hyphens"
    );
    assert!(is_valid_target_name("007"), "A target name can contain numbers");
    assert!(
        is_valid_target_name("_hidden_target"),
        "A target name can start with underscore"
    );

    assert!(
        !is_valid_target_name("-"),
        "A target name cannot start with an hyphen"
    );
    assert!(!is_valid_target_name(""), "A target name cannot be empty");
}

#[test]
fn validation_test_is_valid_target_name() {
    assert_target_names();
}

#[test]
fn yaml_test_is_valid_target_name() {
    assert_target_names();
}

#[test]
fn mod_test_is_valid_target_name() {
    assert_target_names();
}

// Single-file configuration.

fn raw_target_with_dependencies(dependencies: Vec<&str>) -> RawTarget {
    RawTarget {
        dependencies: dependencies.iter().map(|&dep| dep.to_string()).collect(),
        input_paths: vec![],
        output_paths: vec![],
        build_list: vec![],
        service: None,
    }
}

fn raw_targets(data: Vec<(&str, RawTarget)>) -> Vec<(String, RawTarget)> {
    data.into_iter().map(|(k, v)| (k.to_string(), v)).collect()
}

#[test]
fn config_test_validate_targets_on_valid_targets() {
    let targets = raw_targets(vec![
        ("target_1", raw_target_with_dependencies(vec!["target_2"])),
        ("target_2", raw_target_with_dependencies(vec![])),
    ]);

    validate_target("target_1", &vec![], &targets).unwrap();
}

#[test]
fn config_test_validate_targets_with_unknown_dependency() {
    let targets = raw_targets(vec![(
        "target_1",
        raw_target_with_dependencies(vec!["target_2"]),
    )]);

    let result = validate_target("target_1", &vec![], &targets);

    assert_eq!("Target target_2 not found", result.unwrap_err().message());
}

#[test]
fn config_test_validate_targets_with_circular_dependency() {
    let targets = raw_targets(vec![
        ("target_1", raw_target_with_dependencies(vec!["target_2"])),
        ("target_2", raw_target_with_dependencies(vec!["target_3"])),
        ("target_3", raw_target_with_dependencies(vec!["target_1"])),
    ]);

    let result = validate_target("target_1", &vec![], &targets);

    assert_eq!(
        "Circular dependency: target_1 -> target_2 -> target_3 -> target_1",
        result.unwrap_err().message()
    );
}

#[test]
fn single_file_config_rejects_invalid_targets_and_numbers_requested_ones() {
    let invalid = raw_targets(vec![("a", raw_target_with_dependencies(vec!["missing"]))]);
    match FileConfig::from_targets(invalid) {
        Err(ValidationError::NotFound { name }) => assert_eq!(name, "missing"),
        other => panic!("unexpected {:?}", other),
    }

    let mut b = raw_target_with_dependencies(vec!["c"]);
    b.input_paths = vec!["src".to_string()];
    b.build_list = vec!["make".to_string()];
    let targets = raw_targets(vec![
        ("a", raw_target_with_dependencies(vec!["b", "c"])),
        ("b", b),
        ("c", raw_target_with_dependencies(vec![])),
    ]);
    let config = FileConfig::from_targets(targets).unwrap();
    let numbered = config.into_targets("/p", &vec!["a".to_string()]).unwrap();
    let names: Vec<&str> = numbered.iter().map(|t| t.name.as_str()).collect();
    assert_eq!(names, vec!["c", "b", "a"]);
    for (i, t) in numbered.iter().enumerate() {
        assert_eq!(t.id, i);
    }
    assert_eq!(numbered[1].dependencies, vec![0]);
    assert_eq!(numbered[2].dependencies, vec![1, 0]);
    assert_eq!(numbered[1].input_paths, vec!["/p/src".to_string()]);
    assert_eq!(numbered[1].build_list, vec!["make".to_string()]);
    assert_eq!(numbered[1].path, "/p");
}

#[test]
fn single_file_config_reports_every_unknown_requested_target() {
    let targets = raw_targets(vec![("a", raw_target_with_dependencies(vec![]))]);
    let config = FileConfig::from_targets(targets).unwrap();
    let err = config
        .into_targets(".", &vec!["x".to_string(), "a".to_string(), "y".to_string()])
        .unwrap_err();
    assert_eq!(err.names, vec!["x".to_string(), "y".to_string()]);
    assert_eq!(err.message(), "Invalid targets: x, y");
}

// Projects with a single namespace of target names.

fn project_target(dependencies: Vec<&str>) -> ProjectTarget {
    ProjectTarget {
        dependencies: dependencies.into_iter().map(str::to_string).collect(),
        input_paths: vec![],
        output_paths: vec![],
        build: None,
        service: None,
    }
}

fn project_targets(data: Vec<(&str, ProjectTarget)>) -> Vec<(String, ProjectTarget)> {
    data.into_iter().map(|(k, v)| (k.to_string(), v)).collect()
}

fn projects(targets: Vec<(&str, ProjectTarget)>) -> Projects {
    Projects(vec![(
        ".".to_string(),
        Project {
            imports: vec![],
            targets: project_targets(targets),
        },
    )])
}

#[test]
fn validation_test_validate_targets_on_valid_targets() {
    let targets = project_targets(vec![
        ("target_1", project_target(vec!["target_2"])),
        ("target_2", project_target(vec![])),
    ]);

    validate_targets(&targets).expect("Valid targets should be accepted");
}

#[test]
fn validation_test_validate_targets_with_unknown_dependency() {
    let targets = project_targets(vec![("target_1", project_target(vec!["target_2"]))]);

    validate_targets(&targets).expect_err("Unknown dependencies should be rejected");
}

#[test]
fn validation_test_validate_targets_with_circular_dependency() {
    let targets = project_targets(vec![
        ("target_1", project_target(vec!["target_2"])),
        ("target_2", project_target(vec!["target_3"])),
        ("target_3", project_target(vec!["target_1"])),
    ]);

    validate_targets(&targets).expect_err("Circular dependencies should be rejected");
}

#[test]
fn validation_reports_each_kind_of_error() {
    let targets = project_targets(vec![("bad name", project_target(vec![]))]);
    let err = validate_targets(&targets).unwrap_err();
    assert_eq!(err.message(), "bad name is not a valid target name");

    let targets = project_targets(vec![("t1", project_target(vec!["t2"]))]);
    match validate_targets(&targets).unwrap_err() {
        ProjectValidationError::Invalid { target, cause } => {
            assert_eq!(target, "t1");
            assert_eq!(cause, TargetError::MissingDependency { target: "t1".to_string(), dependency: "t2".to_string() });
            assert_eq!(cause.message(), "t1 - Dependency t2 not found");
        }
        other => panic!("unexpected {:?}", other),
    }

    let targets = project_targets(vec![("t1", project_target(vec!["t1"]))]);
    let err = validate_targets(&targets).unwrap_err();
    assert_eq!(err.message(), "Target t1 is invalid");
    match err {
        ProjectValidationError::Invalid { cause, .. } => {
            assert_eq!(cause.message(), "Circular dependency: t1 -> t1")
        }
        other => panic!("unexpected {:?}", other),
    }
}

#[test]
fn test_into_targets_should_return_the_requested_targets() {
    let parsed = projects(vec![
        ("target_1", project_target(vec![])),
        ("target_2", project_target(vec![])),
    ]);

    let actual_targets = into_targets(parsed, Some(vec!["target_2".to_string()]))
        .expect("Conversion of valid targets should be successful");

    assert_eq!(actual_targets.len(), 1);
    assert_eq!(actual_targets[0].name, "target_2");
}

#[test]
fn test_into_targets_should_reject_requested_target_not_found() {
    let parsed = projects(vec![("target_1", project_target(vec![]))]);

    into_targets(parsed, Some(vec!["not_a_target".to_string()]))
        .expect_err("Should reject an invalid requested target");
}

#[test]
fn into_targets_reports_a_dependency_cycle_as_a_missing_target() {
    let parsed = projects(vec![
        ("a", project_target(vec!["b"])),
        ("b", project_target(vec!["a"])),
    ]);
    let err = into_targets(parsed, None).unwrap_err();
    assert_eq!(err.message(), "Target a does not exist");
}

#[test]
fn into_targets_without_request_takes_every_target_once() {
    let mut with_build = project_target(vec!["a"]);
    with_build.build = Some("cc".to_string());
    with_build.output_paths = vec!["out".to_string()];
    let parsed = projects(vec![("a", project_target(vec![])), ("b", with_build)]);
    let numbered = into_targets(parsed, None).unwrap();
    assert_eq!(numbered.len(), 2);
    assert_eq!(numbered[0].name, "a");
    assert_eq!(numbered[1].name, "b");
    assert_eq!(numbered[1].dependencies, vec![0]);
    assert_eq!(numbered[1].build_list, vec!["cc".to_string()]);
    assert_eq!(numbered[1].output_paths, vec!["./out".to_string()]);
}

#[test]
fn targets_of_projects_are_validated_then_numbered() {
    let targets = Targets::try_from(projects(vec![
        ("a", project_target(vec!["b"])),
        ("b", project_target(vec![])),
    ]))
    .unwrap();
    assert_eq!(targets.get_target_names(), vec!["a".to_string(), "b".to_string()]);
    let numbered = targets.try_into_domain_targets(Some(vec!["a".to_string()])).unwrap();
    assert_eq!(numbered.len(), 2);
    assert_eq!(numbered[0].name, "b");

    let err = Targets::try_from(projects(vec![("a", project_target(vec!["a"]))])).unwrap_err();
    assert_eq!(err.message(), "Circular dependency: a -> a");
}

// Projects with named imports.

fn target_ids(names: Vec<&str>) -> Vec<TargetId> {
    names
        .iter()
        .map(|&target_name| TargetId {
            project_name: None,
            target_name: target_name.to_owned(),
        })
        .collect()
}

fn empty_target() -> yaml::Target {
    target_with_dependencies(vec![])
}

fn target_with_dependencies(dependencies: Vec<&str>) -> yaml::Target {
    yaml::Target::Aggregate {
        dependencies: yaml::Dependencies(dependencies.into_iter().map(str::to_string).collect()),
    }
}

fn target_with_input(input: Vec<yaml::InputResource>) -> yaml::Target {
    yaml::Target::Build {
        dependencies: yaml::Dependencies(vec![]),
        build: ":".to_string(),
        input: yaml::InputResources(input),
        output: yaml::OutputResources(vec![]),
    }
}

fn target_with_output(output: Vec<yaml::OutputResource>) -> yaml::Target {
    yaml::Target::Build {
        dependencies: yaml::Dependencies(vec![]),
        build: ":".to_string(),
        input: yaml::InputResources(vec![]),
        output: yaml::OutputResources(output),
    }
}

fn build_config(targets: Vec<(&str, yaml::Target)>) -> IrConfig {
    IrConfig {
        root_project_name: None,
        projects: vec![(
            None,
            String::new(),
            yaml::Project {
                name: None,
                imports: vec![],
                targets: targets.into_iter().map(|(k, v)| (k.to_string(), v)).collect(),
            },
        )],
    }
}

fn find_target<'a>(targets: &'a [Target], target_name: &str) -> Option<&'a Target> {
    targets.iter().find(|t| {
        t.id().project_name.is_none() && t.id().target_name == target_name
    })
}

#[test]
fn test_try_into_domain_targets_should_return_the_requested_targets() {
    let projects = build_config(vec![("target_1", empty_target()), ("target_2", empty_target())]);

    let actual_targets = projects
        .try_into_domain_targets(&target_ids(vec!["target_2"]))
        .expect("Conversion of valid targets should be successful");

    assert_eq!(actual_targets.len(), 1);
    assert!(find_target(&actual_targets, "target_2").is_some());
}

#[test]
fn test_try_into_domain_targets_should_reject_requested_target_not_found() {
    let projects = build_config(vec![("target_1", empty_target())]);

    projects
        .try_into_domain_targets(&target_ids(vec!["not_a_target"]))
        .expect_err("Should reject an invalid requested target");
}

#[test]
fn test_try_into_domain_targets_with_dependency_input() {
    let config = build_config(vec![
        (
            "target_1",
            target_with_output(vec![yaml::OutputResource::Files {
                paths: vec!["output.txt".to_string()],
            }]),
        ),
        (
            "target_2",
            target_with_input(vec![yaml::InputResource::DependencyOutput(
                "target_1.output".to_string(),
            )]),
        ),
    ]);

    let actual_targets = config
        .try_into_domain_targets(&target_ids(vec!["target_2"]))
        .unwrap();

    assert_eq!(actual_targets.len(), 2);
    let target1 = find_target(&actual_targets, "target_1").unwrap();
    let target2 = find_target(&actual_targets, "target_2").unwrap();
    assert_eq!(target2.dependencies(), &vec![target1.id().clone()]);
    assert_eq!(target2.input(), target1.output());
}

#[test]
fn test_try_into_domain_targets_on_valid_targets() {
    let projects = build_config(vec![
        ("target_1", target_with_dependencies(vec!["target_2"])),
        ("target_2", empty_target()),
    ]);

    projects
        .try_into_domain_targets(&target_ids(vec!["target_1", "target_2"]))
        .expect("Valid targets should be accepted");
}

#[test]
fn test_try_into_domain_targets_with_unknown_dependency() {
    let projects = build_config(vec![("target_1", target_with_dependencies(vec!["target_2"]))]);

    projects
        .try_into_domain_targets(&target_ids(vec!["target_1"]))
        .expect_err("Unknown dependencies should be rejected");
}

#[test]
fn test_try_into_domain_targets_with_circular_dependency() {
    let projects = build_config(vec![
        ("target_1", target_with_dependencies(vec!["target_2"])),
        ("target_2", target_with_dependencies(vec!["target_3"])),
        ("target_3", target_with_dependencies(vec!["target_1"])),
    ]);

    projects
        .try_into_domain_targets(&target_ids(vec!["target_1", "target_2", "target_3"]))
        .expect_err("Circular dependencies should be rejected");
}

#[test]
fn try_into_domain_targets_reports_the_dependency_cycle() {
    let projects = build_config(vec![
        ("target_1", target_with_dependencies(vec!["target_2"])),
        ("target_2", target_with_dependencies(vec!["target_1"])),
    ]);
    match projects.try_into_domain_targets(&target_ids(vec!["target_1"])) {
        Err(e @ ConfigError::CircularDependency { .. }) => {
            assert_eq!(e.message(), "Circular dependency: target_1 -> target_2 -> target_1")
        }
        other => panic!("unexpected {:?}", other),
    }
}

// Scenarios of whole build flows, on the library's part of them.

#[test]
fn circular_dependency() {
    let config = build_config(vec![
        ("target_1", target_with_dependencies(vec!["target_2"])),
        ("target_2", target_with_dependencies(vec!["target_1"])),
    ]);
    let error = config.try_into_domain_targets(&target_ids(vec!["target_1"])).unwrap_err();
    assert!(error.message().contains("Circular dependency"));
}

fn build_target_with_io(input: Vec<yaml::InputResource>) -> yaml::Target {
    yaml::Target::Build {
        dependencies: yaml::Dependencies(vec![]),
        build: ":".to_string(),
        input: yaml::InputResources(input),
        output: yaml::OutputResources(vec![yaml::OutputResource::Files { paths: vec!["out".to_string()] }]),
    }
}

#[test]
fn circular_dependency_in_resources() {
    let config = build_config(vec![
        ("target_1", build_target_with_io(vec![yaml::InputResource::DependencyOutput("target_2.output".to_string())])),
        ("target_2", build_target_with_io(vec![yaml::InputResource::DependencyOutput("target_1.output".to_string())])),
    ]);
    let error = config.try_into_domain_targets(&target_ids(vec!["target_1", "target_2"])).unwrap_err();
    assert!(error.message().contains("Circular dependency"));
}

#[test]
fn non_matching_imported_project_name() {
    let error = yaml::check_import("incorrect_subproject_name", &Some("subproject_name".to_string())).unwrap_err();
    let message = error.message();
    assert!(message.contains("Failed to import incorrect_subproject_name"));
    assert!(message.contains("The project should be imported with name subproject_name"));
}

#[test]
fn import_project_with_no_name() {
    let error = yaml::check_import("noname", &None).unwrap_err();
    let message = error.message();
    assert!(message.contains("Failed to import noname"));
    assert!(message.contains("Project cannot be imported as it has no name"));
}

#[test]
fn invalid_project_name() {
    let project = yaml::Project { name: Some("::::".to_string()), imports: vec![], targets: vec![] };
    let error = yaml::validate_project(&project).unwrap_err();
    assert!(error.message().contains(":::: is not a valid project name"));
}
