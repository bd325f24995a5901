use nodeup::target::{
    OperatingSystem, ParseError, Target, TargetError, Version, VersionError,
};

#[test]
fn target_parse_version() {
    let expected = Version { major: 12, minor: 15, patch: 1 };

    let content = "12.15.1";
    let actual = Version::parse(content).unwrap();
    assert_eq!(actual, expected);

    let content = "v12.15.1";
    let actual = Version::parse(content).unwrap();
    assert_eq!(actual, expected);
}

#[test]
fn parse_target() {
    let target_string = "node-v12.15.1-linux-x64";

    let actual = Target::parse(target_string).unwrap();
    let expected = Target::new(OperatingSystem::Linux, Version { major: 12, minor: 15, patch: 1 });

    assert_eq!(actual, expected);
}

#[test]
fn parse_different_target() {
    let target_string = "node-v1.1.1000-linux-x64";

    let actual = Target::parse(target_string).unwrap();
    let expected = Target::new(OperatingSystem::Linux, Version { major: 1, minor: 1, patch: 1000 });

    assert_eq!(actual, expected);
}

#[test]
fn parse_another_target() {
    let target_string = "node-v1000.1000.1000-linux-x64";

    let actual = Target::parse(target_string).unwrap();
    let expected =
        Target::new(OperatingSystem::Linux, Version { major: 1000, minor: 1000, patch: 1000 });

    assert_eq!(actual, expected);
}

#[test]
fn version_display_is_canonical() {
    let v = Version { major: 12, minor: 9, patch: 1 };
    assert_eq!(v.to_string(), "v12.9.1");
    let v = Version { major: 0, minor: 0, patch: 0 };
    assert_eq!(v.to_string(), "v0.0.0");
    let v = Version { major: 10, minor: 200, patch: 3000 };
    assert_eq!(v.to_string(), "v10.200.3000");
}

#[test]
fn version_round_trips_through_display() {
    let samples = [
        Version { major: 0, minor: 0, patch: 0 },
        Version { major: 1, minor: 2, patch: 3 },
        Version { major: 12, minor: 15, patch: 1 },
        Version { major: 1000, minor: 0, patch: 99 },
        Version { major: usize::MAX, minor: 1, patch: usize::MAX },
    ];
    for v in samples {
        assert_eq!(Version::parse(&v.to_string()).unwrap(), v);
    }
}

#[test]
fn target_round_trips_through_display() {
    let version = Version { major: 3, minor: 14, patch: 159 };
    for os in [OperatingSystem::Linux, OperatingSystem::Windows, OperatingSystem::Darwin] {
        let target = Target::new(os, version);
        assert_eq!(Target::parse(&target.to_string()).unwrap(), target);
    }
}

#[test]
fn target_display_names_the_build() {
    let target =
        Target::new(OperatingSystem::Darwin, Version { major: 12, minor: 9, patch: 1 });
    assert_eq!(target.to_string(), "node-v12.9.1-darwin-x64");
}

#[test]
fn version_ordering_follows_the_triples() {
    let parse = |s: &str| Version::parse(s).unwrap();
    assert!(parse("v2.0.0") > parse("v1.99.99"));
    assert!(parse("v1.2.3") == parse("v1.2.3"));
    assert!(parse("v1.2.10") > parse("v1.2.9"));
    assert!(parse("v1.99.99").le(&parse("v2.0.0")));
    assert!(!parse("v2.0.0").le(&parse("v1.99.99")));
    assert!(parse("v1.2.3").le(&parse("v1.2.3")));
}

#[test]
fn leading_zeros_do_not_distinguish_versions() {
    assert_eq!(
        Version::parse("v01.02.003").unwrap(),
        Version { major: 1, minor: 2, patch: 3 },
    );
}

#[test]
fn version_errors_name_the_component() {
    assert!(matches!(Version::parse(""), Err(VersionError::Major { .. })));
    assert!(matches!(Version::parse("x"), Err(VersionError::Major { .. })));
    assert!(matches!(Version::parse("12"), Err(VersionError::Minor { .. })));
    assert!(matches!(Version::parse("12."), Err(VersionError::Minor { .. })));
    assert!(matches!(Version::parse("12.15"), Err(VersionError::Patch { .. })));
    assert!(matches!(Version::parse("12.15."), Err(VersionError::Patch { .. })));
    assert!(matches!(
        Version::parse("v12a.15.1"),
        Err(VersionError::Minor { source: ParseError::UnexpectedChar { .. } })
    ));
}

#[test]
fn number_too_large_for_the_machine_is_rejected() {
    assert!(matches!(
        Version::parse("99999999999999999999999999.0.0"),
        Err(VersionError::Major { source: ParseError::InvalidNumber { .. } })
    ));
}

#[test]
fn target_errors_name_the_part() {
    assert!(matches!(
        Target::parse("node-v12.15-linux-x64"),
        Err(TargetError::Version { .. })
    ));
    assert!(matches!(
        Target::parse("node-v12.-linux-x64"),
        Err(TargetError::Version { .. })
    ));
    assert!(matches!(Target::parse("node-v12.15.1"), Err(TargetError::Separator { .. })));
    match Target::parse("node-v12.15.1-faker-x64") {
        Err(TargetError::OperatingSystem { source }) => {
            let nodeup::target::OperatingSystemError::Unrecognized(token) = source;
            assert_eq!(token, "faker");
        },
        other => panic!("expected an operating-system error, got {:?}", other),
    }
    assert!(matches!(Target::parse(""), Err(TargetError::Version { .. })));
    assert!(matches!(Target::parse("nod"), Err(TargetError::Version { .. })));
}

#[test]
fn trailing_text_after_the_patch_is_ignored() {
    // The version reader stops after the patch digits; what follows is
    // left to the caller, so a missing dash shows up as a separator
    // fault only at the target level.
    assert_eq!(
        Version::parse("12.15.1-linux-x64").unwrap(),
        Version { major: 12, minor: 15, patch: 1 },
    );
    assert!(matches!(
        Target::parse("node-v12.15.2linux-x64"),
        Err(TargetError::OperatingSystem { .. })
    ));
}

#[test]
fn parse_helpers_read_one_token() {
    let (n, rest) = nodeup::target::parse_number("128abc").unwrap();
    assert_eq!(n, 128);
    assert_eq!(rest, "abc");
    assert!(matches!(
        nodeup::target::parse_number("abc"),
        Err(ParseError::InvalidNumber { .. })
    ));

    let (c, rest) = nodeup::target::parse_dot(".5").unwrap();
    assert_eq!(c, '.');
    assert_eq!(rest, "5");
    assert!(matches!(
        nodeup::target::parse_dot("5."),
        Err(ParseError::UnexpectedChar { expected: '.', found: '5' })
    ));

    let (c, rest) = nodeup::target::parse_dash("-x64").unwrap();
    assert_eq!(c, '-');
    assert_eq!(rest, "x64");
    assert!(matches!(
        nodeup::target::parse_dash(""),
        Err(ParseError::UnexpectedEndOfInput)
    ));

    let (c, rest) = nodeup::target::take_char('n', "node").unwrap();
    assert_eq!(c, 'n');
    assert_eq!(rest, "ode");
}

#[test]
fn operating_system_tokens() {
    assert_eq!(OperatingSystem::parse("linux").unwrap(), OperatingSystem::Linux);
    assert_eq!(OperatingSystem::parse("win").unwrap(), OperatingSystem::Windows);
    assert_eq!(OperatingSystem::parse("darwin").unwrap(), OperatingSystem::Darwin);
    assert!(OperatingSystem::parse("macos").is_err());
    assert_eq!(OperatingSystem::Linux.to_string(), "linux");
    assert_eq!(OperatingSystem::Windows.to_string(), "win");
    assert_eq!(OperatingSystem::Darwin.to_string(), "darwin");
}

#[test]
fn from_version_takes_the_build_platform() {
    let version = Version { major: 12, minor: 9, patch: 1 };
    let target = Target::from_version(version);
    assert_eq!(target, Target::new(OperatingSystem::Linux, version));
    assert_eq!(target.version(), version);
}
