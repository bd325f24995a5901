use nodeup::registry::{get_node_download_url, latest_lts, AvailableVersion};
use nodeup::target::{Target, Version};

#[test]
fn create_node_url() {
    let version = Version { major: 12, minor: 9, patch: 1 };

    let actual = get_node_download_url(Target::from_version(version));
    let expected = "https://nodejs.org/dist/v12.9.1/node-v12.9.1-linux-x64.tar.gz";
    assert_eq!(actual, expected);
}

fn entry(version: &str, lts: bool) -> AvailableVersion {
    AvailableVersion { version: String::from(version), lts }
}

#[test]
fn the_newest_long_term_support_version_wins() {
    let listing = vec![
        entry("v13.1.0", false),
        entry("v12.9.1", true),
        entry("v12.13.0", true),
        entry("v10.17.0", true),
    ];
    assert_eq!(latest_lts(&listing), Some(Version { major: 12, minor: 13, patch: 0 }));
}

#[test]
fn without_long_term_support_entries_there_is_no_choice() {
    assert_eq!(latest_lts(&Vec::new()), None);
    let listing = vec![entry("v13.1.0", false), entry("v13.2.0", false)];
    assert_eq!(latest_lts(&listing), None);
}

#[test]
fn unreadable_listing_entries_are_passed_over() {
    let listing = vec![
        entry("not-a-version", true),
        entry("v10.17.0", true),
    ];
    assert_eq!(latest_lts(&listing), Some(Version { major: 10, minor: 17, patch: 0 }));
    let listing = vec![entry("not-a-version", true)];
    assert_eq!(latest_lts(&listing), None);
}
