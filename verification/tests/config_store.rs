use nodeup::config::{Config, ConfigError};
use nodeup::target::{OperatingSystem, Target, Version};

fn target(major: usize, minor: usize, patch: usize) -> Target {
    Target::new(OperatingSystem::Linux, Version { major, minor, patch })
}

#[test]
fn empty_content_is_the_empty_store() {
    let config = Config::fetch("").unwrap();
    assert_eq!(config.active_versions().len(), 0);

    // A written-out empty store is just the header, and reads back
    // empty as well.
    let empty_doc = Config::new().to_document();
    assert_eq!(empty_doc, "[version_mappings]\n");
    assert_eq!(Config::fetch(&empty_doc).unwrap().active_versions().len(), 0);
}

#[test]
fn store_round_trips_through_its_document() {
    let mut config = Config::new();
    config.set_override(target(12, 9, 1), String::from("default"));
    config.set_override(target(14, 0, 0), String::from("/proj"));
    config.set_override(target(10, 2, 3), String::from("/other/deep/dir"));

    let document = config.to_document();
    let read_back = Config::fetch(&document).unwrap();

    let mut entries = read_back.active_versions();
    entries.sort_by(|a, b| a.0.cmp(&b.0));
    assert_eq!(entries.len(), 3);
    assert_eq!(entries[0].0, "/other/deep/dir");
    assert_eq!(entries[0].1, target(10, 2, 3));
    assert_eq!(entries[1].0, "/proj");
    assert_eq!(entries[1].1, target(14, 0, 0));
    assert_eq!(entries[2].0, "default");
    assert_eq!(entries[2].1, target(12, 9, 1));
}

#[test]
fn awkward_path_keys_round_trip() {
    let mut config = Config::new();
    config.set_override(target(1, 2, 3), String::from("/with \"quotes\""));
    config.set_override(target(4, 5, 6), String::from("/with\\backslash"));
    config.set_override(target(7, 8, 9), String::from("/with\nnewline"));

    let document = config.to_document();
    let read_back = Config::fetch(&document).unwrap();

    let mut entries = read_back.active_versions();
    entries.sort_by(|a, b| a.0.cmp(&b.0));
    assert_eq!(entries.len(), 3);
    assert_eq!(entries[0].0, "/with\nnewline");
    assert_eq!(entries[0].1, target(7, 8, 9));
    assert_eq!(entries[1].0, "/with \"quotes\"");
    assert_eq!(entries[1].1, target(1, 2, 3));
    assert_eq!(entries[2].0, "/with\\backslash");
    assert_eq!(entries[2].1, target(4, 5, 6));
}

#[test]
fn the_document_form_is_a_table_of_quoted_pairs() {
    let mut config = Config::new();
    config.set_override(target(12, 9, 1), String::from("default"));
    assert_eq!(
        config.to_document(),
        "[version_mappings]\n\"default\" = \"node-v12.9.1-linux-x64\"\n",
    );
}

#[test]
fn corrupt_documents_are_refused_not_repaired() {
    let corrupt = [
        "not the header\n",
        "[version_mappings]",
        "[version_mappings]\ngarbage\n",
        "[version_mappings]\n\"unterminated = \"node-v1.2.3-linux-x64\"\n",
        "[version_mappings]\n\"a\" = \"not-a-target\"\n",
        "[version_mappings]\n\"a\" = \"node-v1.2.3-linux-x64\"",
        "[version_mappings]\n\"a\" = \"node-v1.2.3-linux-x64\"\n\"a\" = \"node-v1.2.4-linux-x64\"\n",
    ];
    for content in corrupt {
        assert!(
            matches!(Config::fetch(content), Err(ConfigError::Corruption { .. })),
            "accepted: {:?}",
            content
        );
    }
}

#[test]
fn set_override_replaces_and_remove_is_a_no_op_when_absent() {
    let mut config = Config::new();
    config.set_override(target(1, 0, 0), String::from("/proj"));
    config.set_override(target(2, 0, 0), String::from("/proj"));
    let entries = config.active_versions();
    assert_eq!(entries.len(), 1);
    assert_eq!(entries[0].0, "/proj");
    assert_eq!(entries[0].1, target(2, 0, 0));

    let mut config = Config::new();
    config.set_override(target(1, 0, 0), String::from("/proj"));
    config.remove_override(String::from("/absent"));
    assert_eq!(config.active_versions().len(), 1);

    let mut config = Config::new();
    config.set_override(target(1, 0, 0), String::from("/proj"));
    config.remove_override(String::from("/proj"));
    assert_eq!(config.active_versions().len(), 0);
}

#[test]
fn nearest_enclosing_override_wins() {
    let target_a = target(14, 0, 0);
    let target_b = target(12, 9, 1);
    let mut config = Config::new();
    config.set_override(target_a, String::from("/proj"));
    config.set_override(target_b, String::from("default"));

    let no_markers: Vec<(String, String)> = Vec::new();
    assert_eq!(config.get_active_target("/proj/sub", &no_markers).unwrap(), Some(target_a));
    assert_eq!(config.get_active_target("/proj", &no_markers).unwrap(), Some(target_a));
    assert_eq!(config.get_active_target("/other", &no_markers).unwrap(), Some(target_b));
}

#[test]
fn without_a_default_nothing_resolves() {
    let mut config = Config::new();
    config.set_override(target(14, 0, 0), String::from("/proj"));
    let no_markers: Vec<(String, String)> = Vec::new();
    assert_eq!(config.get_active_target("/other", &no_markers).unwrap(), None);
}

#[test]
fn a_marker_file_pins_the_version_below_it() {
    let mut config = Config::new();
    config.set_override(target(12, 9, 1), String::from("default"));
    let markers = vec![(String::from("/proj"), String::from("14.2.0\n"))];
    // The marker is found on the way up and wins over the default.
    assert_eq!(
        config.get_active_target("/proj/sub", &markers).unwrap(),
        Some(target(14, 2, 0)),
    );
    // An exact-path override still wins over the marker in that
    // directory.
    config.set_override(target(10, 0, 0), String::from("/proj"));
    assert_eq!(
        config.get_active_target("/proj/sub", &markers).unwrap(),
        Some(target(10, 0, 0)),
    );
}

#[test]
fn an_unreadable_marker_is_a_named_fault() {
    let config = Config::new();
    let markers = vec![(String::from("/proj"), String::from("not a version"))];
    match config.get_active_target("/proj/sub", &markers) {
        Err(ConfigError::ParseError { path, .. }) => assert_eq!(path, "/proj"),
        other => panic!("expected a marker fault, got {:?}", other),
    }
}

#[test]
fn end_to_end_default_override() {
    // The store starts empty; a default override is set; the document
    // written by the update reads back as exactly that one entry; and
    // resolution from an unrelated path falls through to the default.
    let target_x = target(13, 3, 7);
    let config = Config::new();
    assert_eq!(config.active_versions().len(), 0);

    let mut config2 = Config::fetch("").unwrap();
    config2.set_override(target_x, String::from("default"));
    let document = config2.to_document();

    let fetched = Config::fetch(&document).unwrap();
    let entries = fetched.active_versions();
    assert_eq!(entries.len(), 1);
    assert_eq!(entries[0].0, "default");
    assert_eq!(entries[0].1, target_x);

    let fetched = Config::fetch(&document).unwrap();
    let no_markers: Vec<(String, String)> = Vec::new();
    assert_eq!(fetched.get_active_target("/any/path", &no_markers).unwrap(), Some(target_x));

    let mut rebuilt = Config::new();
    rebuilt.set_override(target_x, String::from("default"));
    assert_eq!(rebuilt.to_document(), document);
}
