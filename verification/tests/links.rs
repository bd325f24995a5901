use nodeup::verify::{
    ConfigurationCheck, IncorrectConfiguration, LinkCheck, LinkState, PathLookup,
};
use nodeup::{link_decision, EntryKind, LinkAction, LinkingError};

fn observed(path: &str, state: LinkState, lookup: PathLookup) -> LinkCheck {
    LinkCheck { path: String::from(path), state, lookup }
}

#[test]
fn linking_twice_is_idempotent() {
    // First run over a fresh directory: every name is absent, every
    // decision is to create the link.
    for name in ["/links/node", "/links/npm", "/links/npx"] {
        assert_eq!(
            link_decision(EntryKind::Absent, String::from(name)).unwrap(),
            LinkAction::CreateLink,
        );
    }
    // Second run: every name now holds a link, every decision is that
    // it is already configured — no error the second time.
    for name in ["/links/node", "/links/npm", "/links/npx"] {
        assert_eq!(
            link_decision(EntryKind::SymbolicLink, String::from(name)).unwrap(),
            LinkAction::AlreadyLinked,
        );
    }
}

#[test]
fn a_foreign_file_at_a_link_name_is_refused() {
    match link_decision(EntryKind::OtherEntry, String::from("/links/node")) {
        Err(LinkingError::AlreadyExists { path }) => assert_eq!(path, "/links/node"),
        other => panic!("expected a collision, got {:?}", other),
    }
}

#[test]
fn missing_symlink() {
    let expected_node_link = "/links/node";
    let expected = ConfigurationCheck::Incorrect(IncorrectConfiguration::MissingSymLink(
        String::from(expected_node_link),
    ));
    let checks = vec![
        observed("/links/node", LinkState::Missing, PathLookup::BinaryNotFound),
        observed("/links/npm", LinkState::Missing, PathLookup::BinaryNotFound),
        observed("/links/npx", LinkState::Missing, PathLookup::BinaryNotFound),
    ];
    assert_eq!(expected, nodeup::verify::verify_links(checks))
}

#[test]
fn not_a_symlink() {
    let not_a_symlink_node = "/links/node";
    let expected = ConfigurationCheck::Incorrect(IncorrectConfiguration::NotASymlink(
        String::from(not_a_symlink_node),
    ));
    let checks = vec![
        observed("/links/node", LinkState::NotALink, PathLookup::BinaryNotFound),
        observed("/links/npm", LinkState::Missing, PathLookup::BinaryNotFound),
        observed("/links/npx", LinkState::Missing, PathLookup::BinaryNotFound),
    ];
    assert_eq!(expected, nodeup::verify::verify_links(checks))
}

#[test]
fn a_correct_setup_verifies() {
    let checks = vec![
        observed("/links/node", LinkState::Link, PathLookup::Found(String::from("/links/node"))),
        observed("/links/npm", LinkState::Link, PathLookup::Found(String::from("/links/npm"))),
        observed("/links/npx", LinkState::Link, PathLookup::Found(String::from("/links/npx"))),
    ];
    assert_eq!(ConfigurationCheck::Correct, nodeup::verify::verify_links(checks));
}

#[test]
fn a_shadowing_binary_is_reported() {
    let checks = vec![
        observed(
            "/links/node",
            LinkState::Link,
            PathLookup::Found(String::from("/usr/bin/node")),
        ),
    ];
    let expected = ConfigurationCheck::Incorrect(IncorrectConfiguration::WrongBinary(
        String::from("/usr/bin/node"),
    ));
    assert_eq!(expected, nodeup::verify::verify_links(checks));
}

#[test]
fn path_search_failures_are_distinguished() {
    let checks =
        vec![observed("/links/node", LinkState::Link, PathLookup::BinaryNotFound)];
    assert_eq!(
        ConfigurationCheck::Incorrect(IncorrectConfiguration::LinkNotFound),
        nodeup::verify::verify_links(checks),
    );
    let checks =
        vec![observed("/links/node", LinkState::Link, PathLookup::PathUnavailable)];
    assert_eq!(
        ConfigurationCheck::Incorrect(IncorrectConfiguration::PathNotFound),
        nodeup::verify::verify_links(checks),
    );
}

#[test]
fn findings_render_with_the_offending_path() {
    let finding = IncorrectConfiguration::NotASymlink(String::from("/links/node"));
    let text = finding.to_string();
    assert!(text.starts_with("The binary at: /links/node"));
    let finding = IncorrectConfiguration::MissingSymLink(String::from("/links/npm"));
    let text = finding.to_string();
    assert!(text.starts_with("Missing a symlink to nodeup at: /links/npm"));
}
