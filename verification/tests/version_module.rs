use nodeup::installed_versions;
use nodeup::target;
use nodeup::version::{parse_dot, parse_number, Version, VersionTextError};

#[test]
fn version_parse_version() {
    let expected = Version { major: 12, minor: 15, patch: 1 };

    let content = "12.15.1";
    let actual = Version::parse(content).unwrap();
    assert_eq!(actual, expected);

    let content = "v12.15.1";
    let actual = Version::parse(content).unwrap();
    assert_eq!(actual, expected);
}

#[test]
fn version_module_errors_carry_the_failing_text() {
    match Version::parse("12.x.1") {
        Err(VersionTextError::Number { content }) => assert_eq!(content, "x.1"),
        other => panic!("expected a number fault, got {:?}", other),
    }
    match Version::parse("12;15.1") {
        Err(VersionTextError::Dot { content }) => assert_eq!(content, ";15.1"),
        other => panic!("expected a dot fault, got {:?}", other),
    }
}

#[test]
fn version_module_helpers() {
    let (n, rest) = parse_number("42rest").unwrap();
    assert_eq!(n, 42);
    assert_eq!(rest, "rest");
    assert!(matches!(parse_number(""), Err(VersionTextError::Number { .. })));

    let (_, rest) = parse_dot(".x").unwrap();
    assert_eq!(rest, "x");
    assert!(matches!(parse_dot("x"), Err(VersionTextError::Dot { .. })));
}

#[test]
fn get_installed_targets() {
    let fake_target = target::Target::new(
        target::OperatingSystem::Linux,
        target::Version { major: 10, minor: 2, patch: 3 },
    );
    let names = vec![fake_target.to_string()];
    let targets = installed_versions(&names);
    assert_eq!(targets, vec![fake_target]);
}

#[test]
fn installed_listings_pass_over_foreign_names() {
    let names = vec![
        String::from("node-v10.2.3-linux-x64"),
        String::from("README"),
        String::from("node-v12.0.0-darwin-x64"),
        String::from("node-v9-linux-x64"),
    ];
    let targets = installed_versions(&names);
    assert_eq!(targets.len(), 2);
    assert_eq!(targets[0].version(), nodeup::target::Version { major: 10, minor: 2, patch: 3 });
    assert_eq!(targets[1].version(), nodeup::target::Version { major: 12, minor: 0, patch: 0 });
}
