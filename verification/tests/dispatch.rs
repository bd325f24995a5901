use nodeup::config::{Config, ConfigError};
use nodeup::target::{OperatingSystem, Target, Version};
use nodeup::{bin_path, classify_invocation, resolve_bin_path, ErrorTask, Invocation, NodeupError};

#[test]
fn invocation_names_are_classified() {
    assert_eq!(classify_invocation("nodeup"), Invocation::Manager);
    assert_eq!(classify_invocation("node"), Invocation::Node);
    assert_eq!(classify_invocation("npm"), Invocation::Npm);
    assert_eq!(classify_invocation("npx"), Invocation::Npx);
    assert_eq!(classify_invocation("python"), Invocation::Unrecognized);
    assert_eq!(classify_invocation(""), Invocation::Unrecognized);
}

#[test]
fn the_real_binary_lives_under_the_install_layout() {
    let target = Target::new(OperatingSystem::Linux, Version { major: 12, minor: 9, patch: 1 });
    assert_eq!(
        bin_path("/data/nodeup", &target, "npm"),
        "/data/nodeup/node-v12.9.1-linux-x64/bin/npm",
    );
}

#[test]
fn dispatch_resolves_through_the_store() {
    let target = Target::from_version(Version { major: 12, minor: 9, patch: 1 });
    let mut config = Config::new();
    config.set_override(target, String::from("default"));
    let no_markers: Vec<(String, String)> = Vec::new();

    let path = resolve_bin_path(&config, "/work/proj", &no_markers, "/data/nodeup", "node");
    assert_eq!(path.unwrap(), "/data/nodeup/node-v12.9.1-linux-x64/bin/node");
}

#[test]
fn dispatch_without_any_version_says_so() {
    let config = Config::new();
    let no_markers: Vec<(String, String)> = Vec::new();
    let r = resolve_bin_path(&config, "/work/proj", &no_markers, "/data/nodeup", "node");
    assert!(matches!(r, Err(NodeupError::NoVersionFound)));
}

#[test]
fn dispatch_reports_a_bad_marker_under_the_executing_task() {
    let config = Config::new();
    let markers = vec![(String::from("/work"), String::from("garbage"))];
    match resolve_bin_path(&config, "/work/proj", &markers, "/data/nodeup", "node") {
        Err(NodeupError::Config { source: ConfigError::ParseError { path, .. }, task }) => {
            assert_eq!(path, "/work");
            assert_eq!(task, ErrorTask::Executing);
        },
        other => panic!("expected a marker fault, got {:?}", other),
    }
}

#[test]
fn tasks_render_in_the_imperative() {
    assert_eq!(ErrorTask::Executing.to_string(), "execute command");
    assert_eq!(ErrorTask::Linking.to_string(), "create sym links");
    assert_eq!(ErrorTask::ActiveVersions.to_string(), "list active versions");
}
